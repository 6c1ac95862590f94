//! What holds of every plugin source.

use crate::install::source;
use crate::install::source::{Forge, SourceView};
use crate::text;
use vstd::prelude::*;

verus! {

/// Every segment of a normalised sub path is a plain directory name: it is not empty, it is
/// no upward step, and it holds no separator, drive letter or address delimiter.
pub proof fn sub_path_segments_are_plain(v: Seq<char>)
    requires
        source::sub_path_of(v) is Ok,
        source::sub_path_of(v)->Ok_0.len() > 0,
    ensures
        forall|k: int|
            0 <= k < text::pieces(source::sub_path_of(v)->Ok_0, '/').len() ==> {
                let seg = #[trigger] text::pieces(source::sub_path_of(v)->Ok_0, '/')[k];
                &&& seg.len() > 0
                &&& !source::all_dots(seg)
                &&& source::all_ident(seg)
            },
{
    reveal_strlit("/");
    let segs = source::clean_segments(text::pieces(text::trimmed(v), '/'))->Ok_0;
    lemma_clean_segments(text::pieces(text::trimmed(v), '/'));
    assert("/"@ =~= seq!['/']);
    assert forall|k: int| 0 <= k < segs.len() implies !(#[trigger] segs[k]).contains('/') by {
        assert(source::all_ident(segs[k]));
    }
    if segs.len() > 0 {
        text::lemma_pieces_joined(segs, '/');
    }
}

pub(crate) proof fn lemma_clean_segments(v: Seq<Seq<char>>)
    requires
        source::clean_segments(v) is Ok,
    ensures
        ({
            let segs = source::clean_segments(v)->Ok_0;
            forall|k: int|
                0 <= k < segs.len() ==> {
                    &&& (#[trigger] segs[k]).len() > 0
                    &&& !source::all_dots(segs[k])
                    &&& source::all_ident(segs[k])
                    &&& segs[k] != "."@
                }
        }),
    decreases v.len(),
{
    if v.len() > 0 {
        lemma_clean_segments(v.drop_last());
    }
}

/// Segments that are plain stay as they are.
proof fn lemma_clean_plain(v: Seq<Seq<char>>)
    requires
        forall|k: int|
            0 <= k < v.len() ==> {
                &&& (#[trigger] v[k]).len() > 0
                &&& !source::all_dots(v[k])
                &&& source::all_ident(v[k])
                &&& v[k] != "."@
            },
    ensures
        source::clean_segments(seq![Seq::<char>::empty()] + v) == Ok::<
            Seq<Seq<char>>,
            Seq<char>,
        >(v),
    decreases v.len(),
{
    let w = seq![Seq::<char>::empty()] + v;
    if v.len() > 0 {
        lemma_clean_plain(v.drop_last());
        assert(w.drop_last() == seq![Seq::<char>::empty()] + v.drop_last());
        assert(w.last() == v.last());
        assert(v.drop_last().push(v.last()) == v);
    } else {
        assert(w.drop_last() == Seq::<Seq<char>>::empty());
        assert(w.last() == Seq::<char>::empty());
        assert(source::clean_segments(w) == source::clean_segments(w.drop_last()));
        assert(v == Seq::<Seq<char>>::empty());
    }
}

/// A normalised sub path is its own normal form.
pub proof fn sub_path_is_stable(v: Seq<char>)
    requires
        source::sub_path_of(v) is Ok,
        source::sub_path_of(v)->Ok_0.len() > 0,
    ensures
        source::sub_path_of("/"@ + source::sub_path_of(v)->Ok_0) == source::sub_path_of(v),
{
    reveal_strlit("/");
    assert("/"@ =~= seq!['/']);
    let segs = source::clean_segments(text::pieces(text::trimmed(v), '/'))->Ok_0;
    lemma_clean_segments(text::pieces(text::trimmed(v), '/'));
    let sub = source::sub_path_of(v)->Ok_0;
    assert(segs.len() > 0);
    assert forall|k: int| 0 <= k < segs.len() implies !(#[trigger] segs[k]).contains('/') by {
        assert(source::all_ident(segs[k]));
    }
    text::lemma_pieces_joined(segs, '/');
    let t = "/"@ + sub;
    lemma_sub_path_chars(v);
    assert(t.last() == sub.last());
    text::lemma_trimmed_id(t);
    assert(!t.contains('\\')) by {
        if t.contains('\\') {
            let j = choose|j: int| 0 <= j < t.len() && t[j] == '\\';
            assert(j > 0);
            assert(t[j] == sub[j - 1]);
        }
    }
    assert(t == Seq::<char>::empty().push('/') + sub);
    text::lemma_pieces_front(Seq::<char>::empty(), '/', sub);
    lemma_clean_plain(segs);
}

/// A normalised sub path holds name characters and slashes, and ends with a name character.
proof fn lemma_sub_path_chars(v: Seq<char>)
    requires
        source::sub_path_of(v) is Ok,
    ensures
        ({
            let sub = source::sub_path_of(v)->Ok_0;
            &&& forall|j: int|
                0 <= j < sub.len() ==> source::ident_char(#[trigger] sub[j]) || sub[j] == '/'
            &&& sub.len() > 0 ==> source::ident_char(sub.last())
        }),
{
    reveal_strlit("/");
    assert("/"@ =~= seq!['/']);
    let segs = source::clean_segments(text::pieces(text::trimmed(v), '/'))->Ok_0;
    lemma_clean_segments(text::pieces(text::trimmed(v), '/'));
    let sub = source::sub_path_of(v)->Ok_0;
    assert forall|j: int| 0 <= j < sub.len() implies source::ident_char(#[trigger] sub[j]) || sub[j]
        == '/' by {
        text::lemma_joined_chars(segs, "/"@, j);
        if !"/"@.contains(sub[j]) {
            let k = choose|k: int| 0 <= k < segs.len() && (#[trigger] segs[k]).contains(sub[j]);
            let m = choose|m: int| 0 <= m < segs[k].len() && segs[k][m] == sub[j];
            assert(source::ident_char(segs[k][m]));
        }
    }
    if sub.len() > 0 {
        let last = segs.last();
        assert(segs[segs.len() - 1].len() > 0);
        if segs.len() == 1 {
            assert(sub == segs[0]);
        } else {
            assert(sub.last() == last.last());
        }
        assert(source::ident_char(last[last.len() - 1]));
    }
}

/// What a parsed repository source is made of.
proof fn lemma_segments_parsed(
    segs: Seq<Seq<char>>,
    query: Seq<char>,
    revision: Seq<char>,
    hosts: Seq<(Seq<char>, Forge)>,
) -> (sub: Seq<char>)
    requires
        source::segments_parsed(segs, query, revision, hosts) is Ok,
    ensures
        ({
            let v = source::segments_parsed(segs, query, revision, hosts)->Ok_0;
            let host = text::stripped_starts(text::lowered(segs[0]), "www."@);
            &&& segs.len() == 3
            &&& v.domain == host
            &&& !host.contains(':')
            &&& source::forge_of(hosts, host) is Some
            &&& v.owner == segs[1]
            &&& v.owner.len() > 0
            &&& v.repo.len() > 0
            &&& source::ident_error(v.owner, "用户名"@) is None
            &&& source::ident_error(v.repo, "仓库名"@) is None
            &&& v.revision == revision
            &&& source::revision_error(revision) is None
            &&& v == source::repo_view(
                host,
                source::forge_of(hosts, host)->0,
                v.owner,
                v.repo,
                v.sub_path,
                revision,
            )
            &&& v.sub_path.len() > 0 ==> source::sub_path_of(sub) == Ok::<Seq<char>, Seq<char>>(
                v.sub_path,
            )
        }),
{
    let pairs = text::nonempty(text::pieces(query, '&'));
    if pairs.len() == 0 {
        Seq::empty()
    } else {
        match text::cut_char(pairs.last(), '=') {
            Some(kv) => kv.1,
            None => Seq::empty(),
        }
    }
}

/// The host of a parsed source keeps its form when it is read again, and holds no delimiter.
proof fn lemma_host(path: Seq<char>, segs: Seq<Seq<char>>, host: Seq<char>)
    requires
        segs == text::nonempty(text::pieces(path, '/')),
        segs.len() > 0,
        !path.contains('#'),
        !path.contains('?'),
        host == text::stripped_starts(text::lowered(segs[0]), "www."@),
    ensures
        text::stripped_starts(text::lowered(host), "www."@) == host,
        !host.contains('/'),
        !host.contains('#'),
        !host.contains('?'),
{
    reveal_strlit("www.");
    let low = text::lowered(segs[0]);
    text::lemma_stripped_starts(low, "www."@);
    text::lemma_lowered_idempotent(segs[0]);
    assert(text::lowered(host) =~= host) by {
        assert forall|i: int| 0 <= i < host.len() implies text::lower_char(host[i])
            == host[i] by {
            assert(host[i] == low[low.len() - host.len() + i]);
        }
    }
    text::lemma_nonempty_members(text::pieces(path, '/'));
    text::lemma_pieces_free(path, '/');
    let all = text::pieces(path, '/');
    assert(all.contains(segs[0]));
    let k = choose|k: int| 0 <= k < all.len() && all[k] == segs[0];
    assert forall|i: int| 0 <= i < host.len() implies host[i] != '/' && host[i] != '#' && host[i]
        != '?' by {
        let j = low.len() - host.len() + i;
        assert(host[i] == low[j]);
        assert(low[j] == text::lower_char(segs[0][j]));
        assert(all[k][j] != '/');
        assert(path.contains(all[k][j]));
    }
}

/// The parts before and after the first separator hold together.
proof fn lemma_cut_free(s: Seq<char>, c: char)
    ensures
        match text::cut_char(s, c) {
            Some((a, b)) => !a.contains(c) && s == a.push(c) + b,
            None => !s.contains(c),
        },
{
    text::lemma_index_of(s, c);
    let i = text::index_of(s, c);
    if i < s.len() {
        let a = s.take(i as int);
        assert(!a.contains(c)) by {
            if a.contains(c) {
                let j = choose|j: int| 0 <= j < a.len() && a[j] == c;
                assert(s[j] == c);
            }
        }
        assert(s == a.push(c) + s.skip(i as int + 1));
    }
}

/// Cutting at a character that the front does not hold.
proof fn lemma_cut_at(a: Seq<char>, c: char, b: Seq<char>)
    requires
        !a.contains(c),
    ensures
        text::cut_char(a.push(c) + b, c) == Some((a, b)),
{
    let s = a.push(c) + b;
    assert forall|i: int| 0 <= i < a.len() implies s[i] != c by {
        assert(s[i] == a[i]);
        assert(a.contains(a[i]));
    }
    text::lemma_index_of_is(s, c, a.len());
    assert(s.take(a.len() as int) == a);
    assert(s.skip(a.len() as int + 1) == b);
}

proof fn lemma_cut_none(s: Seq<char>, c: char)
    requires
        !s.contains(c),
    ensures
        text::cut_char(s, c) is None,
{
    text::lemma_index_of(s, c);
}

/// The query of a normalised address gives its sub path back.
proof fn lemma_query_again(sub: Seq<char>, from: Seq<char>)
    requires
        sub.len() > 0,
        source::sub_path_of(from) == Ok::<Seq<char>, Seq<char>>(sub),
    ensures
        source::query_path(text::nonempty(text::pieces("path=/"@ + sub, '&'))) == Ok::<
            Seq<char>,
            Seq<char>,
        >(sub),
{
    reveal_strlit("path=/");
    reveal_strlit("path");
    reveal_strlit("/");
    lemma_sub_path_chars(from);
    let q = "path=/"@ + sub;
    assert(!q.contains('&')) by {
        if q.contains('&') {
            let j = choose|j: int| 0 <= j < q.len() && q[j] == '&';
            if j >= 6 {
                assert(q[j] == sub[j - 6]);
            }
        }
    }
    text::lemma_pieces_one(q, '&');
    let pairs = seq![q];
    text::lemma_nonempty_all(pairs);
    assert(pairs.drop_last() == Seq::<Seq<char>>::empty());
    assert(pairs.last() == q);
    assert(source::query_path(pairs.drop_last()) is Ok);
    assert(source::query_path(pairs) == source::sub_path_of("/"@ + sub)) by {
        assert(q =~= "path"@.push('=') + ("/"@ + sub));
        lemma_cut_at("path"@, '=', "/"@ + sub);
    }
    assert(q =~= "path"@.push('=') + ("/"@ + sub));
    lemma_cut_at("path"@, '=', "/"@ + sub);
    sub_path_is_stable(from);
}

/// The path, query and revision of a normalised address.
proof fn lemma_parts_again(
    host: Seq<char>,
    owner: Seq<char>,
    repo: Seq<char>,
    sub: Seq<char>,
    revision: Seq<char>,
    from: Seq<char>,
)
    requires
        !host.contains('#'),
        !host.contains('?'),
        source::all_ident(owner),
        source::all_ident(repo),
        sub.len() > 0 ==> source::sub_path_of(from) == Ok::<Seq<char>, Seq<char>>(sub),
        source::revision_error(revision) is None,
    ensures
        ({
            let base = host + "/"@ + owner + "/"@ + repo + ".git"@;
            let with_path = if sub.len() == 0 {
                base
            } else {
                base + "?path=/"@ + sub
            };
            let rest = if revision.len() == 0 {
                with_path
            } else {
                with_path + "#"@ + revision
            };
            source::address_parts(rest) == (
                base,
                if sub.len() == 0 {
                    Seq::<char>::empty()
                } else {
                    "path=/"@ + sub
                },
                revision,
            )
        }),
{
    reveal_strlit("/");
    reveal_strlit(".git");
    reveal_strlit("?path=/");
    reveal_strlit("path=/");
    reveal_strlit("#");
    let base = host + "/"@ + owner + "/"@ + repo + ".git"@;
    let with_path = if sub.len() == 0 {
        base
    } else {
        base + "?path=/"@ + sub
    };
    let rest = if revision.len() == 0 {
        with_path
    } else {
        with_path + "#"@ + revision
    };
    let query = if sub.len() == 0 {
        Seq::<char>::empty()
    } else {
        "path=/"@ + sub
    };
    if sub.len() > 0 {
        lemma_sub_path_chars(from);
    }
    let h = host.len() as int;
    let o = h + 1 + owner.len();
    let r = o + 1 + repo.len();
    assert forall|i: int| 0 <= i < base.len() implies base[i] != '#' && base[i] != '?' by {
        if i < h {
            assert(base[i] == host[i]);
            assert(host.contains(host[i]));
        } else if h < i < o {
            assert(base[i] == owner[i - h - 1]);
            assert(source::ident_char(owner[i - h - 1]));
        } else if o < i < r {
            assert(base[i] == repo[i - o - 1]);
            assert(source::ident_char(repo[i - o - 1]));
        } else if i >= r {
            assert(base[i] == ".git"@[i - r]);
        }
    }
    assert(!base.contains('?'));
    assert(!with_path.contains('#')) by {
        if with_path.contains('#') {
            let j = choose|j: int| 0 <= j < with_path.len() && with_path[j] == '#';
            if j < base.len() {
                assert(with_path[j] == base[j]);
            } else if j < base.len() + 7 {
                assert(with_path[j] == "?path=/"@[j - base.len()]);
            } else {
                assert(with_path[j] == sub[j - base.len() - 7]);
            }
        }
    }
    if revision.len() == 0 {
        lemma_cut_none(rest, '#');
        assert(revision == Seq::<char>::empty());
    } else {
        assert(rest =~= with_path.push('#') + revision);
        lemma_cut_at(with_path, '#', revision);
        assert(source::revision_char(revision[0]));
        assert(source::revision_char(revision[revision.len() - 1]));
        text::lemma_trimmed_id(revision);
    }
    if sub.len() == 0 {
        lemma_cut_none(with_path, '?');
    } else {
        assert(with_path =~= base.push('?') + query);
        lemma_cut_at(base, '?', query);
    }
}

/// The path of a normalised address has three segments.
proof fn lemma_segments_again(host: Seq<char>, owner: Seq<char>, repo: Seq<char>)
    requires
        host.len() > 0,
        owner.len() > 0,
        !host.contains('/'),
        source::all_ident(owner),
        source::all_ident(repo),
    ensures
        text::nonempty(text::pieces(host + "/"@ + owner + "/"@ + repo + ".git"@, '/')) == seq![
            host,
            owner,
            repo + ".git"@,
        ],
{
    reveal_strlit("/");
    reveal_strlit(".git");
    let tail = repo + ".git"@;
    assert(!tail.contains('/')) by {
        if tail.contains('/') {
            let j = choose|j: int| 0 <= j < tail.len() && tail[j] == '/';
            if j < repo.len() {
                assert(source::ident_char(repo[j]));
            } else {
                assert(tail[j] == ".git"@[j - repo.len()]);
            }
        }
    }
    assert(!owner.contains('/')) by {
        if owner.contains('/') {
            let j = choose|j: int| 0 <= j < owner.len() && owner[j] == '/';
            assert(source::ident_char(owner[j]));
        }
    }
    let s = host + "/"@ + owner + "/"@ + repo + ".git"@;
    assert(s =~= host.push('/') + (owner.push('/') + tail));
    text::lemma_pieces_front(host, '/', owner.push('/') + tail);
    text::lemma_pieces_front(owner, '/', tail);
    text::lemma_pieces_one(tail, '/');
    let v = seq![host, owner, tail];
    assert(seq![host] + (seq![owner] + seq![tail]) =~= v);
    text::lemma_nonempty_all(v);
}

/// No host of the list that the settings give has an empty name.
pub proof fn allowed_hosts_have_names(extra: Option<Seq<char>>)
    ensures
        !source::has_host(source::hosts_of(extra), Seq::empty()),
{
    match extra {
        Some(e) => {
            lemma_with_hosts_named(text::pieces(e, ','));
        },
        None => {
            lemma_with_hosts_named(Seq::empty());
        },
    }
}

proof fn lemma_with_hosts_named(items: Seq<Seq<char>>)
    ensures
        !source::has_host(source::with_hosts(source::default_hosts(), items), Seq::empty()),
    decreases items.len(),
{
    let none = Seq::<char>::empty();
    let all = source::with_hosts(source::default_hosts(), items);
    reveal_strlit("github.com");
    reveal_strlit("gitee.com");
    if items.len() > 0 {
        let before = source::with_hosts(source::default_hosts(), items.drop_last());
        lemma_with_hosts_named(items.drop_last());
        if source::has_host(all, none) {
            let i = choose|i: int| 0 <= i < all.len() && (#[trigger] all[i]).0 == none;
            if i < before.len() {
                assert(before[i].0 == none);
            } else {
                assert(all[i] == source::host_item(items.last())->0);
            }
        }
    } else {
        if source::has_host(all, none) {
            let i = choose|i: int| 0 <= i < all.len() && (#[trigger] all[i]).0 == none;
            assert(all[i].0.len() == 0);
            assert("github.com"@.len() > 0 && "gitee.com"@.len() > 0);
            assert(i == 0 || i == 1);
        }
    }
}

/// A source's address can be parsed again as it stands, and gives the same source: under the
/// hosts that the settings give.
pub proof fn address_reparses_under_settings(input: Seq<char>, extra: Option<Seq<char>>)
    requires
        source::parsed(input, source::hosts_of(extra)) is Ok,
    ensures
        source::parsed(
            source::parsed(input, source::hosts_of(extra))->Ok_0.url,
            source::hosts_of(extra),
        ) == source::parsed(input, source::hosts_of(extra)),
{
    allowed_hosts_have_names(extra);
    address_reparses_to_itself(input, source::hosts_of(extra));
}

/// A source's address can be parsed again as it stands, and gives the same source: under any
/// list of hosts that have names.
pub proof fn address_reparses_to_itself(input: Seq<char>, hosts: Seq<(Seq<char>, Forge)>)
    requires
        source::parsed(input, hosts) is Ok,
        !source::has_host(hosts, Seq::empty()),
    ensures
        source::parsed(source::parsed(input, hosts)->Ok_0.url, hosts) == source::parsed(
            input,
            hosts,
        ),
{
    let raw = text::trimmed(input);
    if source::MARKET_SCHEME@.is_prefix_of(raw) {
        lemma_market_again(raw.skip(source::MARKET_SCHEME@.len() as int), hosts);
    } else {
        let rest = (text::cut(raw, "://"@)->0).1;
        lemma_repo_again(rest, hosts);
    }
}

proof fn lemma_market_again(rest: Seq<char>, hosts: Seq<(Seq<char>, Forge)>)
    requires
        source::market_parsed(rest) is Ok,
    ensures
        source::parsed(source::market_parsed(rest)->Ok_0.url, hosts) == source::market_parsed(rest),
{
    let name = source::market_parsed(rest)->Ok_0.repo;
    let scheme = source::MARKET_SCHEME@;
    reveal_strlit("itools-market://");
    let url = scheme + name;
    assert(source::plugin_name_char(name[0]));
    assert(source::plugin_name_char(name[name.len() - 1]));
    assert(url[0] == 'i');
    assert(url.last() == name.last());
    text::lemma_trimmed_id(url);
    assert(scheme.is_prefix_of(url));
    assert(url.skip(scheme.len() as int) =~= name);
    text::lemma_trimmed_id(name);
    assert(text::trimmed_end(name, |c: char| c == '/') == name);
}

proof fn lemma_repo_again(rest: Seq<char>, hosts: Seq<(Seq<char>, Forge)>)
    requires
        ({
            let (path, query, revision) = source::address_parts(rest);
            source::segments_parsed(
                text::nonempty(text::pieces(path, '/')),
                query,
                revision,
                hosts,
            ) is Ok
        }),
        !source::has_host(hosts, Seq::empty()),
    ensures
        ({
            let (path, query, revision) = source::address_parts(rest);
            let v = source::segments_parsed(
                text::nonempty(text::pieces(path, '/')),
                query,
                revision,
                hosts,
            );
            source::parsed(v->Ok_0.url, hosts) == v
        }),
{
    let (path, query, revision) = source::address_parts(rest);
    let segs = text::nonempty(text::pieces(path, '/'));
    let v = source::segments_parsed(segs, query, revision, hosts)->Ok_0;
    let from = lemma_segments_parsed(segs, query, revision, hosts);
    let host = v.domain;
    // The path comes before the first delimiter.
    lemma_cut_free(rest, '#');
    let head = match text::cut_char(rest, '#') {
        Some((a, b)) => a,
        None => rest,
    };
    lemma_cut_free(head, '?');
    assert(!path.contains('?'));
    assert(!path.contains('#')) by {
        if path.contains('#') {
            let j = choose|j: int| 0 <= j < path.len() && path[j] == '#';
            assert(head[j] == '#');
        }
    }
    lemma_host(path, segs, host);
    lemma_forge_listed(hosts, host);
    assert(host.len() > 0) by {
        if host.len() == 0 {
            assert(host =~= Seq::<char>::empty());
        }
    }
    lemma_url_again(v, from, hosts);
}

/// What follows the scheme decides how a secure address is read.
proof fn lemma_scheme(rest: Seq<char>, hosts: Seq<(Seq<char>, Forge)>)
    requires
        rest.len() > 0,
        !text::is_space(rest.last()),
    ensures
        source::parsed("https://"@ + rest, hosts) == ({
            let (path, query, revision) = source::address_parts(rest);
            source::segments_parsed(
                text::nonempty(text::pieces(path, '/')),
                query,
                revision,
                hosts,
            )
        }),
{
    reveal_strlit("https://");
    reveal_strlit("https");
    reveal_strlit("://");
    reveal_strlit("itools-market://");
    reveal_strlit("git@");
    reveal_strlit("ssh://");
    reveal_strlit("file://");
    let url = "https://"@ + rest;
    assert(url[0] == 'h');
    assert(url.last() == rest.last());
    text::lemma_trimmed_id(url);
    let low = text::lowered(url);
    assert(low[0] == 'h');
    assert(source::MARKET_SCHEME@ == "itools-market://"@);
    text::lemma_not_prefix("itools-market://"@, url);
    text::lemma_not_prefix("git@"@, low);
    text::lemma_not_prefix("ssh://"@, low);
    text::lemma_not_prefix("file://"@, low);
    // The scheme ends at the first "://".
    assert("://"@.is_prefix_of(url.skip(5))) by {
        assert(url.skip(5).subrange(0, 3) =~= "://"@);
    }
    assert forall|j: int| 0 <= j < 5 implies !"://"@.is_prefix_of(#[trigger] url.skip(j)) by {
        assert(url.skip(j)[0] == "https://"@[j]);
        text::lemma_not_prefix("://"@, url.skip(j));
    }
    text::lemma_first_match_is(url, "://"@, 5);
    assert(url.take(5) =~= "https"@);
    assert(url.skip(8) =~= rest);
}

proof fn lemma_url_again(v: SourceView, from: Seq<char>, hosts: Seq<(Seq<char>, Forge)>)
    requires
        v.owner.len() > 0,
        v.repo.len() > 0,
        !v.domain.contains(':'),
        !v.domain.contains('/'),
        !v.domain.contains('#'),
        !v.domain.contains('?'),
        text::stripped_starts(text::lowered(v.domain), "www."@) == v.domain,
        source::forge_of(hosts, v.domain) is Some,
        source::ident_error(v.owner, "用户名"@) is None,
        source::ident_error(v.repo, "仓库名"@) is None,
        source::revision_error(v.revision) is None,
        v.sub_path.len() > 0 ==> source::sub_path_of(from) == Ok::<Seq<char>, Seq<char>>(
            v.sub_path,
        ),
        v == source::repo_view(
            v.domain,
            source::forge_of(hosts, v.domain)->0,
            v.owner,
            v.repo,
            v.sub_path,
            v.revision,
        ),
        v.domain.len() > 0,
    ensures
        source::parsed(v.url, hosts) == Ok::<SourceView, Seq<char>>(v),
{
    reveal_strlit("https://");
    reveal_strlit(".git");
    reveal_strlit("/");
    let base = v.domain + "/"@ + v.owner + "/"@ + v.repo + ".git"@;
    let with_path = if v.sub_path.len() == 0 {
        base
    } else {
        base + "?path=/"@ + v.sub_path
    };
    let rest = if v.revision.len() == 0 {
        with_path
    } else {
        with_path + "#"@ + v.revision
    };
    assert(v.url =~= "https://"@ + rest);
    // No white space at the end.
    if v.revision.len() > 0 {
        assert(rest.last() == v.revision[v.revision.len() - 1]);
        assert(source::revision_char(v.revision[v.revision.len() - 1]));
    } else if v.sub_path.len() > 0 {
        lemma_sub_path_chars(from);
        assert(rest.last() == v.sub_path.last());
    } else {
        assert(rest.last() == ".git"@[3]);
    }
    lemma_scheme(rest, hosts);
    lemma_parts_again(v.domain, v.owner, v.repo, v.sub_path, v.revision, from);
    lemma_segments_again(v.domain, v.owner, v.repo);
    let query = if v.sub_path.len() == 0 {
        Seq::<char>::empty()
    } else {
        "path=/"@ + v.sub_path
    };
    if v.sub_path.len() > 0 {
        lemma_query_again(v.sub_path, from);
    } else {
        text::lemma_pieces_one(query, '&');
        assert(text::nonempty(seq![query]) =~= Seq::<Seq<char>>::empty()) by {
            reveal_with_fuel(text::nonempty, 2);
            assert(seq![query].drop_first() =~= Seq::<Seq<char>>::empty());
        }
        assert(v.sub_path =~= Seq::<char>::empty());
    }
    lemma_segments_ok(v, query, hosts);
}

/// Good segments give the source they are made of.
proof fn lemma_segments_ok(v: SourceView, query: Seq<char>, hosts: Seq<(Seq<char>, Forge)>)
    requires
        v.owner.len() > 0,
        v.repo.len() > 0,
        !v.domain.contains(':'),
        text::stripped_starts(text::lowered(v.domain), "www."@) == v.domain,
        source::forge_of(hosts, v.domain) is Some,
        source::ident_error(v.owner, "用户名"@) is None,
        source::ident_error(v.repo, "仓库名"@) is None,
        source::revision_error(v.revision) is None,
        source::query_path(text::nonempty(text::pieces(query, '&'))) == Ok::<
            Seq<char>,
            Seq<char>,
        >(v.sub_path),
        v == source::repo_view(
            v.domain,
            source::forge_of(hosts, v.domain)->0,
            v.owner,
            v.repo,
            v.sub_path,
            v.revision,
        ),
    ensures
        source::segments_parsed(
            seq![v.domain, v.owner, v.repo + ".git"@],
            query,
            v.revision,
            hosts,
        ) == Ok::<SourceView, Seq<char>>(v),
{
    let tail = v.repo + ".git"@;
    assert(source::without_suffix(tail, ".git"@) =~= v.repo) by {
        assert(".git"@ =~= tail.subrange(tail.len() - ".git"@.len(), tail.len() as int));
    }
}

/// A host with a style is listed.
proof fn lemma_forge_listed(hosts: Seq<(Seq<char>, Forge)>, host: Seq<char>)
    ensures
        source::forge_of(hosts, host) is Some <==> source::has_host(hosts, host),
    decreases hosts.len(),
{
    if hosts.len() > 0 {
        let t = hosts.drop_first();
        lemma_forge_listed(t, host);
        if hosts[0].0 != host {
            if source::has_host(hosts, host) {
                let i = choose|i: int| 0 <= i < hosts.len() && (#[trigger] hosts[i]).0 == host;
                assert(t[i - 1].0 == host);
            }
            if source::has_host(t, host) {
                let i = choose|i: int| 0 <= i < t.len() && (#[trigger] t[i]).0 == host;
                assert(hosts[i + 1].0 == host);
            }
        }
    }
}

proof fn lemma_nonempty_push(v: Seq<Seq<char>>)
    ensures
        text::nonempty(v.push(Seq::empty())) == text::nonempty(v),
    decreases v.len(),
{
    let w = v.push(Seq::<char>::empty());
    if v.len() == 0 {
        assert(w.drop_first() =~= Seq::<Seq<char>>::empty());
        assert(w[0].len() == 0);
        assert(text::nonempty(w) == text::nonempty(w.drop_first()));
        assert(text::nonempty(w.drop_first()) == Seq::<Seq<char>>::empty());
        assert(text::nonempty(v) == Seq::<Seq<char>>::empty());
    } else {
        assert(w[0] == v[0]);
        assert(w.drop_first() =~= v.drop_first().push(Seq::<char>::empty()));
        lemma_nonempty_push(v.drop_first());
    }
}

/// A slash at the end of the path of an address does not count.
pub proof fn last_slash_does_not_count(path: Seq<char>)
    ensures
        text::nonempty(text::pieces(path.push('/'), '/')) == text::nonempty(
            text::pieces(path, '/'),
        ),
{
    assert(path.push('/') + Seq::<char>::empty() =~= path.push('/'));
    text::lemma_pieces_back(path, '/', Seq::empty());
    lemma_nonempty_push(text::pieces(path, '/'));
}

/// The usual spellings of a repository are one source: with `.git` behind its name or without,
/// with `www.` in front of the host or without.
pub proof fn spellings_of_a_repository_are_one(
    host: Seq<char>,
    owner: Seq<char>,
    repo: Seq<char>,
    query: Seq<char>,
    revision: Seq<char>,
    hosts: Seq<(Seq<char>, Forge)>,
)
    requires
        !".git"@.is_suffix_of(repo),
    ensures
        source::segments_parsed(seq![host, owner, repo + ".git"@], query, revision, hosts)
            == source::segments_parsed(seq![host, owner, repo], query, revision, hosts),
        source::segments_parsed(seq!["www."@ + host, owner, repo], query, revision, hosts)
            == source::segments_parsed(seq![host, owner, repo], query, revision, hosts),
{
    reveal_strlit(".git");
    reveal_strlit("www.");
    let long = repo + ".git"@;
    assert(".git"@.is_suffix_of(long)) by {
        assert(long.subrange(repo.len() as int, long.len() as int) =~= ".git"@);
    }
    assert(long.take(long.len() - 4) =~= repo);
    let plain = text::lowered(host);
    let full = text::lowered("www."@ + host);
    assert(full =~= "www."@ + plain) by {
        assert forall|i: int| 0 <= i < 4 implies full[i] == "www."@[i] by {
            assert(("www."@ + host)[i] == "www."@[i]);
        }
    }
    assert("www."@.is_prefix_of(full)) by {
        assert(full.subrange(0, 4) =~= "www."@);
    }
    assert(full.skip(4) =~= plain);
}

/// One way to write the address of a repository: blanks around it, the host as it is written,
/// `.git` and a slash at the end or not.
pub open spec fn spelled(
    before: Seq<char>,
    host: Seq<char>,
    owner: Seq<char>,
    repo: Seq<char>,
    git: bool,
    slash: bool,
    after: Seq<char>,
) -> Seq<char> {
    let plain = "https://"@ + host + "/"@ + owner + "/"@ + repo;
    let named = if git {
        plain + ".git"@
    } else {
        plain
    };
    before + (if slash {
        named.push('/')
    } else {
        named
    }) + after
}

/// The name of a host: it holds no delimiter of an address.
pub open spec fn is_host_name(h: Seq<char>) -> bool {
    h.len() > 0 && !h.contains('/') && !h.contains('?') && !h.contains('#') && !h.contains(':')
}

/// Lowering keeps delimiters: a text holds those that its lower case does.
proof fn lemma_written_host(written: Seq<char>, low: Seq<char>, c: char)
    requires
        text::lowered(written) == low,
        !low.contains(c),
        text::lower_char(c) == c,
    ensures
        !written.contains(c),
{
    if written.contains(c) {
        let i = choose|i: int| 0 <= i < written.len() && written[i] == c;
        assert(text::lowered(written)[i] == c);
    }
}

/// The address behind the scheme is all path, in three segments.
proof fn lemma_spelled_parts(written: Seq<char>, owner: Seq<char>, name: Seq<char>, slash: bool)
    requires
        is_host_name(written),
        owner.len() > 0,
        name.len() > 0,
        source::all_ident(owner),
        source::all_ident(name),
    ensures
        ({
            let base = written + "/"@ + owner + "/"@ + name;
            let rest = if slash {
                base.push('/')
            } else {
                base
            };
            &&& source::address_parts(rest) == (rest, Seq::<char>::empty(), Seq::<char>::empty())
            &&& text::nonempty(text::pieces(rest, '/')) == seq![written, owner, name]
        }),
{
    reveal_strlit("/");
    let base = written + "/"@ + owner + "/"@ + name;
    let rest = if slash {
        base.push('/')
    } else {
        base
    };
    let h = written.len() as int;
    let o = h + 1 + owner.len();
    assert forall|i: int| 0 <= i < rest.len() implies rest[i] != '#' && rest[i] != '?' by {
        if i < h {
            assert(rest[i] == written[i]);
            assert(written.contains(written[i]));
        } else if h < i < o {
            assert(rest[i] == owner[i - h - 1]);
            assert(source::ident_char(owner[i - h - 1]));
        } else if o < i < base.len() {
            assert(rest[i] == name[i - o - 1]);
            assert(source::ident_char(name[i - o - 1]));
        }
    }
    lemma_cut_none(rest, '#');
    lemma_cut_none(rest, '?');
    assert(!owner.contains('/')) by {
        if owner.contains('/') {
            let j = choose|j: int| 0 <= j < owner.len() && owner[j] == '/';
            assert(source::ident_char(owner[j]));
        }
    }
    assert(!name.contains('/')) by {
        if name.contains('/') {
            let j = choose|j: int| 0 <= j < name.len() && name[j] == '/';
            assert(source::ident_char(name[j]));
        }
    }
    assert(base =~= written.push('/') + (owner.push('/') + name));
    text::lemma_pieces_front(written, '/', owner.push('/') + name);
    text::lemma_pieces_front(owner, '/', name);
    text::lemma_pieces_one(name, '/');
    let v = seq![written, owner, name];
    assert(seq![written] + (seq![owner] + seq![name]) =~= v);
    text::lemma_nonempty_all(v);
    if slash {
        last_slash_does_not_count(base);
    }
}

proof fn lemma_spelled_segments(
    host: Seq<char>,
    written: Seq<char>,
    owner: Seq<char>,
    repo: Seq<char>,
    git: bool,
    hosts: Seq<(Seq<char>, Forge)>,
)
    requires
        is_host_name(host),
        !"www."@.is_prefix_of(host),
        source::forge_of(hosts, host) is Some,
        text::lowered(written) == host || text::lowered(written) == "www."@ + host,
        owner.len() > 0,
        repo.len() > 0,
        source::ident_error(owner, "用户名"@) is None,
        source::ident_error(repo, "仓库名"@) is None,
        !".git"@.is_suffix_of(repo),
    ensures
        source::segments_parsed(
            seq![
                written,
                owner,
                if git {
                    repo + ".git"@
                } else {
                    repo
                },
            ],
            Seq::empty(),
            Seq::empty(),
            hosts,
        ) == Ok::<SourceView, Seq<char>>(
            source::repo_view(
                host,
                source::forge_of(hosts, host)->0,
                owner,
                repo,
                Seq::empty(),
                Seq::empty(),
            ),
        ),
{
    reveal_strlit(".git");
    reveal_strlit("www.");
    let low = text::lowered(written);
    assert(text::stripped_starts(host, "www."@) == host);
    if low != host {
        assert(low.subrange(0, 4) =~= "www."@);
        assert("www."@.is_prefix_of(low));
        assert(low.skip(4) =~= host);
    }
    assert(text::stripped_starts(low, "www."@) == host);
    let long = repo + ".git"@;
    assert(".git"@.is_suffix_of(long)) by {
        assert(long.subrange(repo.len() as int, long.len() as int) =~= ".git"@);
    }
    assert(long.take(long.len() - 4) =~= repo);
    let none = Seq::<char>::empty();
    text::lemma_pieces_one(none, '&');
    assert(text::nonempty(seq![none]) =~= Seq::<Seq<char>>::empty()) by {
        reveal_with_fuel(text::nonempty, 2);
        assert(seq![none].drop_first() =~= Seq::<Seq<char>>::empty());
    }
}

/// However the address of a repository is written, it is one source: with `.git` at its end or
/// without, with a slash at its end or without, with the host in any case, with `www.` in front
/// of the host or without, and with blanks around it. Owner and repository keep their case.
pub proof fn addresses_of_a_repository_are_one(
    host: Seq<char>,
    written: Seq<char>,
    owner: Seq<char>,
    repo: Seq<char>,
    git: bool,
    slash: bool,
    before: Seq<char>,
    after: Seq<char>,
    hosts: Seq<(Seq<char>, Forge)>,
)
    requires
        is_host_name(host),
        !"www."@.is_prefix_of(host),
        source::forge_of(hosts, host) is Some,
        text::lowered(written) == host || text::lowered(written) == "www."@ + host,
        owner.len() > 0,
        repo.len() > 0,
        source::ident_error(owner, "用户名"@) is None,
        source::ident_error(repo, "仓库名"@) is None,
        !".git"@.is_suffix_of(repo),
        forall|i: int| 0 <= i < before.len() ==> text::is_space(#[trigger] before[i]),
        forall|i: int| 0 <= i < after.len() ==> text::is_space(#[trigger] after[i]),
    ensures
        source::parsed(spelled(before, written, owner, repo, git, slash, after), hosts) == Ok::<
            SourceView,
            Seq<char>,
        >(
            source::repo_view(
                host,
                source::forge_of(hosts, host)->0,
                owner,
                repo,
                Seq::empty(),
                Seq::empty(),
            ),
        ),
{
    reveal_strlit("https://");
    reveal_strlit("/");
    reveal_strlit(".git");
    reveal_strlit("www.");
    let low = text::lowered(written);
    assert(low.len() == written.len());
    assert forall|c: char| c == '/' || c == '?' || c == '#' || c == ':' implies !written.contains(
        c,
    ) by {
        if low.contains(c) {
            let i = choose|i: int| 0 <= i < low.len() && low[i] == c;
            let m = low.len() - host.len();
            if i >= m {
                assert(host[i - m] == c);
            } else {
                assert("www."@[i] == c);
            }
        }
        lemma_written_host(written, low, c);
    }
    let name = if git {
        repo + ".git"@
    } else {
        repo
    };
    assert forall|i: int| 0 <= i < name.len() implies source::ident_char(#[trigger] name[i]) by {
        if i < repo.len() {
            assert(name[i] == repo[i]);
        } else {
            assert(name[i] == ".git"@[i - repo.len()]);
        }
    }
    let base = written + "/"@ + owner + "/"@ + name;
    let rest = if slash {
        base.push('/')
    } else {
        base
    };
    let core = "https://"@ + rest;
    assert(spelled(before, written, owner, repo, git, slash, after) =~= before + core + after);
    if !slash {
        assert(rest.last() == name[name.len() - 1]);
        assert(source::ident_char(name[name.len() - 1]));
    }
    assert(core[0] == 'h');
    assert(core.last() == rest.last());
    text::lemma_trimmed_around(before, core, after);
    text::lemma_trimmed_id(core);
    lemma_scheme(rest, hosts);
    lemma_spelled_parts(written, owner, name, slash);
    lemma_spelled_segments(host, written, owner, repo, git, hosts);
}

/// What an address of a repository says is what is taken from it: its host, with the style that
/// the host is listed with, its owner and repository, the directory behind `?path=/` and the
/// revision behind `#`.
pub proof fn addresses_say_what_they_mean(
    host: Seq<char>,
    owner: Seq<char>,
    repo: Seq<char>,
    dirs: Seq<Seq<char>>,
    revision: Seq<char>,
    hosts: Seq<(Seq<char>, Forge)>,
)
    requires
        is_host_name(host),
        text::lowered(host) == host,
        !"www."@.is_prefix_of(host),
        source::forge_of(hosts, host) is Some,
        owner.len() > 0,
        repo.len() > 0,
        source::ident_error(owner, "用户名"@) is None,
        source::ident_error(repo, "仓库名"@) is None,
        source::revision_error(revision) is None,
        forall|k: int|
            0 <= k < dirs.len() ==> (#[trigger] dirs[k]).len() > 0 && !source::all_dots(dirs[k])
                && source::all_ident(dirs[k]),
    ensures
        ({
            let sub = text::joined(dirs, "/"@);
            let plain = "https://"@ + host + "/"@ + owner + "/"@ + repo + ".git"@;
            let with_path = if dirs.len() == 0 {
                plain
            } else {
                plain + "?path=/"@ + sub
            };
            let address = if revision.len() == 0 {
                with_path
            } else {
                with_path + "#"@ + revision
            };
            let r = source::parsed(address, hosts);
            &&& r is Ok
            &&& r->Ok_0.domain == host
            &&& r->Ok_0.owner == owner
            &&& r->Ok_0.repo == repo
            &&& r->Ok_0.sub_path == sub
            &&& r->Ok_0.revision == revision
            &&& r->Ok_0.host == source::forge_of(hosts, host)->0.name()
            &&& r->Ok_0.url == address
            &&& r->Ok_0.page_url == "https://"@ + host + "/"@ + owner + "/"@ + repo
        }),
{
    reveal_strlit("/");
    reveal_strlit(".");
    reveal_strlit("www.");
    assert("/"@ =~= seq!['/']);
    let sub = text::joined(dirs, "/"@);
    let v = source::repo_view(
        host,
        source::forge_of(hosts, host)->0,
        owner,
        repo,
        sub,
        revision,
    );
    if dirs.len() > 0 {
        assert forall|k: int| 0 <= k < dirs.len() implies !(#[trigger] dirs[k]).contains('/') by {
            if dirs[k].contains('/') {
                let j = choose|j: int| 0 <= j < dirs[k].len() && dirs[k][j] == '/';
                assert(source::ident_char(dirs[k][j]));
            }
        }
        assert forall|k: int| 0 <= k < dirs.len() implies #[trigger] dirs[k] != "."@ by {
            if dirs[k] == "."@ {
                assert(source::all_dots(dirs[k]));
            }
        }
        lemma_joined_sub(dirs);
        assert(sub.len() > 0);
    } else {
        assert(sub =~= Seq::<char>::empty());
    }
    assert(text::stripped_starts(host, "www."@) == host);
    lemma_url_again(v, sub, hosts);
}

proof fn lemma_joined_sub(dirs: Seq<Seq<char>>)
    requires
        dirs.len() > 0,
        forall|k: int|
            0 <= k < dirs.len() ==> {
                &&& (#[trigger] dirs[k]).len() > 0
                &&& !source::all_dots(dirs[k])
                &&& source::all_ident(dirs[k])
                &&& dirs[k] != "."@
                &&& !dirs[k].contains('/')
            },
    ensures
        source::sub_path_of(text::joined(dirs, "/"@)) == Ok::<Seq<char>, Seq<char>>(
            text::joined(dirs, "/"@),
        ),
        text::joined(dirs, "/"@).len() > 0,
{
    reveal_strlit("/");
    assert("/"@ =~= seq!['/']);
    let sub = text::joined(dirs, "/"@);
    assert forall|i: int| 0 <= i < sub.len() implies (#[trigger] sub[i] == '/'
        || source::ident_char(sub[i])) by {
        text::lemma_joined_chars(dirs, "/"@, i);
        if "/"@.contains(sub[i]) {
            let j = choose|j: int| 0 <= j < "/"@.len() && "/"@[j] == sub[i];
        } else {
            let k = choose|k: int| 0 <= k < dirs.len() && (#[trigger] dirs[k]).contains(sub[i]);
            let j = choose|j: int| 0 <= j < dirs[k].len() && dirs[k][j] == sub[i];
            assert(source::ident_char(dirs[k][j]));
        }
    }
    assert(sub.len() > 0) by {
        if sub.len() == 0 {
            text::lemma_pieces_joined(dirs, '/');
            text::lemma_pieces_one(sub, '/');
            assert(dirs[0] == sub);
        }
    }
    assert(sub[0] == '/' || source::ident_char(sub[0]));
    assert(sub[sub.len() - 1] == '/' || source::ident_char(sub[sub.len() - 1]));
    text::lemma_trimmed_id(sub);
    if sub.contains('\\') {
        let i = choose|i: int| 0 <= i < sub.len() && sub[i] == '\\';
        assert(sub[i] == '/' || source::ident_char(sub[i]));
    }
    text::lemma_pieces_joined(dirs, '/');
    lemma_clean_all(dirs);
}

proof fn lemma_clean_all(v: Seq<Seq<char>>)
    requires
        forall|k: int|
            0 <= k < v.len() ==> {
                &&& (#[trigger] v[k]).len() > 0
                &&& !source::all_dots(v[k])
                &&& source::all_ident(v[k])
                &&& v[k] != "."@
            },
    ensures
        source::clean_segments(v) == Ok::<Seq<Seq<char>>, Seq<char>>(v),
    decreases v.len(),
{
    if v.len() > 0 {
        let less = v.drop_last();
        assert forall|k: int| 0 <= k < less.len() implies {
            &&& (#[trigger] less[k]).len() > 0
            &&& !source::all_dots(less[k])
            &&& source::all_ident(less[k])
            &&& less[k] != "."@
        } by {
            assert(less[k] == v[k]);
        }
        lemma_clean_all(less);
        let last = v[v.len() - 1];
        assert(last.len() > 0 && !source::all_dots(last) && source::all_ident(last) && last
            != "."@);
        assert(less.push(last) =~= v);
    } else {
        assert(v =~= Seq::<Seq<char>>::empty());
    }
}

/// Names of owners and repositories are made of letters, digits, dots, underscores and hyphens,
/// not of dots alone; any such name is accepted.
pub proof fn names_are_made_of_name_characters(s: Seq<char>, what: Seq<char>)
    ensures
        source::ident_error(s, what) is None <==> (exists|i: int|
            0 <= i < s.len() && #[trigger] s[i] != '.') && forall|i: int|
            0 <= i < s.len() ==> ('a' <= #[trigger] s[i] <= 'z' || 'A' <= s[i] <= 'Z' || '0' <= s[i]
                <= '9' || s[i] == '.' || s[i] == '_' || s[i] == '-'),
{
    if source::ident_error(s, what) is None {
        assert forall|i: int| 0 <= i < s.len() implies ('a' <= #[trigger] s[i] <= 'z' || 'A' <= s[i]
            <= 'Z' || '0' <= s[i] <= '9' || s[i] == '.' || s[i] == '_' || s[i] == '-') by {
            assert(source::ident_char(s[i]));
        }
    }
}

/// A revision is refused where it could leave its place in an address: with two dots in a row,
/// with a slash at an end, with a hyphen in front or with a character that no name has. Any
/// other revision is accepted, and so is none.
pub proof fn revisions_stay_in_their_place(r: Seq<char>)
    ensures
        source::revision_error(Seq::empty()) is None,
        r.len() > 0 ==> (source::revision_error(r) is None <==> !text::occurs(r, ".."@) && r[0]
            != '/' && r.last() != '/' && r[0] != '-' && forall|i: int|
            0 <= i < r.len() ==> ('a' <= #[trigger] r[i] <= 'z' || 'A' <= r[i] <= 'Z' || '0' <= r[i]
                <= '9' || r[i] == '.' || r[i] == '_' || r[i] == '-' || r[i] == '/')),
{
    if r.len() > 0 && source::revision_error(r) is None {
        assert forall|i: int| 0 <= i < r.len() implies ('a' <= #[trigger] r[i] <= 'z' || 'A' <= r[i]
            <= 'Z' || '0' <= r[i] <= '9' || r[i] == '.' || r[i] == '_' || r[i] == '-' || r[i]
            == '/') by {
            assert(source::revision_char(r[i]));
        }
    }
}

/// A plugin's name has 1 to 64 characters: small letters, digits, dots, underscores and
/// hyphens, a letter or a digit first. Every such name is one.
pub proof fn plugin_names_are_short_and_plain(s: Seq<char>)
    ensures
        source::valid_plugin_name(s) ==> s.len() > 0 && s.len() < 65,
        source::valid_plugin_name(s) <==> 0 < s.len() < 65 && s[0] != '.' && s[0] != '_' && s[0]
            != '-' && forall|i: int|
            0 <= i < s.len() ==> ('a' <= #[trigger] s[i] <= 'z' || '0' <= s[i] <= '9' || s[i] == '.'
                || s[i] == '_' || s[i] == '-'),
{
    if source::valid_plugin_name(s) {
        assert forall|i: int| 0 <= i < s.len() implies ('a' <= #[trigger] s[i] <= 'z' || '0' <= s[i]
            <= '9' || s[i] == '.' || s[i] == '_' || s[i] == '-') by {
            assert(source::plugin_name_char(s[i]));
        }
    }
}

/// The full id of a commit, which is that of twenty bytes in hexadecimal digits, does not follow
/// updates; a text of any other length does.
pub proof fn commit_ids_are_pinned(bytes: Seq<u8>, revision: Seq<char>)
    requires
        bytes.len() == 20,
    ensures
        source::pinned(crate::codec::hex_text(bytes)),
        revision.len() != 40 ==> !source::pinned(revision),
        source::pinned(revision) ==> forall|i: int|
            0 <= i < revision.len() ==> ('0' <= #[trigger] revision[i] <= '9' || 'a' <= revision[i]
                <= 'f' || 'A' <= revision[i] <= 'F'),
{
    let h = crate::codec::hex_text(bytes);
    assert forall|i: int| 0 <= i < h.len() implies text::is_hex(#[trigger] h[i]) by {
        crate::codec::hex_reads_back(bytes, i / 2);
        assert(i == 2 * (i / 2) || i == 2 * (i / 2) + 1);
    }
    if source::pinned(revision) {
        assert forall|i: int| 0 <= i < revision.len() implies ('0' <= #[trigger] revision[i] <= '9'
            || 'a' <= revision[i] <= 'f' || 'A' <= revision[i] <= 'F') by {
            assert(text::is_hex(revision[i]));
        }
    }
}

/// Whatever the setting adds, github.com and gitee.com are allowed, each in its own style; a
/// host that is added is allowed in the style that it names, and no other host is.
pub proof fn settings_add_hosts(extra: Option<Seq<char>>, host: Seq<char>)
    ensures
        source::forge_of(source::hosts_of(extra), "github.com"@) == Some(Forge::GitHub),
        source::forge_of(source::hosts_of(extra), "gitee.com"@) == Some(Forge::Gitee),
        extra is None ==> (source::has_host(source::hosts_of(extra), host) <==> host
            == "github.com"@ || host == "gitee.com"@),
        extra matches Some(e) ==> (source::has_host(source::hosts_of(extra), host) <==> host
            == "github.com"@ || host == "gitee.com"@ || exists|k: int|
            0 <= k < text::pieces(e, ',').len() && source::host_item(
                #[trigger] text::pieces(e, ',')[k],
            ) is Some && (source::host_item(text::pieces(e, ',')[k])->0).0 == host),
{
    reveal_strlit("github.com");
    reveal_strlit("gitee.com");
    assert("github.com"@[1] == 'i' && "github.com"@[2] == 't' && "gitee.com"@[2] == 't'
        && "github.com"@.len() == 10 && "gitee.com"@.len() == 9);
    let d = source::default_hosts();
    assert(d[0].0 == "github.com"@ && d[1].0 == "gitee.com"@);
    match extra {
        None => {
            lemma_default_forges(Seq::empty());
            assert(source::with_hosts(d, Seq::empty()) == d);
        },
        Some(e) => {
            lemma_default_forges(text::pieces(e, ','));
            lemma_added_hosts(text::pieces(e, ','), host);
        },
    }
}

proof fn lemma_default_forges(items: Seq<Seq<char>>)
    ensures
        ({
            let h = source::with_hosts(source::default_hosts(), items);
            &&& h.len() >= 2
            &&& h[0] == ("github.com"@, Forge::GitHub)
            &&& h[1] == ("gitee.com"@, Forge::Gitee)
            &&& source::forge_of(h, "github.com"@) == Some(Forge::GitHub)
            &&& source::forge_of(h, "gitee.com"@) == Some(Forge::Gitee)
        }),
    decreases items.len(),
{
    reveal_strlit("github.com");
    reveal_strlit("gitee.com");
    assert("github.com"@.len() == 10 && "gitee.com"@.len() == 9);
    if items.len() > 0 {
        lemma_default_forges(items.drop_last());
    }
    let h = source::with_hosts(source::default_hosts(), items);
    assert(h[0] == ("github.com"@, Forge::GitHub));
    assert(h[1] == ("gitee.com"@, Forge::Gitee));
    assert(h.drop_first()[0] == h[1]);
    reveal_with_fuel(source::forge_of, 3);
}

proof fn lemma_added_hosts(items: Seq<Seq<char>>, host: Seq<char>)
    ensures
        source::has_host(source::with_hosts(source::default_hosts(), items), host) <==> host
            == "github.com"@ || host == "gitee.com"@ || exists|k: int|
            0 <= k < items.len() && source::host_item(#[trigger] items[k]) is Some
                && (source::host_item(items[k])->0).0 == host,
    decreases items.len(),
{
    let d = source::default_hosts();
    let h = source::with_hosts(d, items);
    if items.len() == 0 {
        assert(d[0].0 == "github.com"@ && d[1].0 == "gitee.com"@);
    } else {
        let less = items.drop_last();
        let before = source::with_hosts(d, less);
        lemma_added_hosts(less, host);
        if source::has_host(before, host) {
            let i = choose|i: int| 0 <= i < before.len() && (#[trigger] before[i]).0 == host;
            assert(h[i] == before[i]);
        }
        if source::has_host(h, host) && !source::has_host(before, host) {
            let i = choose|i: int| 0 <= i < h.len() && (#[trigger] h[i]).0 == host;
            if i < before.len() {
                assert(before[i].0 == host);
            }
            assert(source::host_item(items[items.len() - 1]) is Some);
        }
        if exists|k: int|
            0 <= k < items.len() && source::host_item(#[trigger] items[k]) is Some
                && (source::host_item(items[k])->0).0 == host {
            let k = choose|k: int|
                0 <= k < items.len() && source::host_item(#[trigger] items[k]) is Some
                    && (source::host_item(items[k])->0).0 == host;
            if k < less.len() {
                assert(less[k] == items[k]);
            } else {
                if !source::has_host(before, host) {
                    assert(h[before.len() as int].0 == host);
                }
            }
        }
        if exists|k: int|
            0 <= k < less.len() && source::host_item(#[trigger] less[k]) is Some
                && (source::host_item(less[k])->0).0 == host {
            let k = choose|k: int|
                0 <= k < less.len() && source::host_item(#[trigger] less[k]) is Some
                    && (source::host_item(less[k])->0).0 == host;
            assert(items[k] == less[k]);
        }
    }
}

/// A host is added under its name in small letters, built like gitee, or like github where that
/// is said behind `=`; white space around the parts does not count.
pub proof fn hosts_are_added_by_name(host: Seq<char>, before: Seq<char>, after: Seq<char>)
    requires
        host.len() > 0,
        !text::is_space(host[0]),
        !text::is_space(host.last()),
        !host.contains('='),
        !"www."@.is_prefix_of(host),
        forall|i: int| 0 <= i < before.len() ==> text::is_space(#[trigger] before[i]),
        forall|i: int| 0 <= i < after.len() ==> text::is_space(#[trigger] after[i]),
    ensures
        source::host_item(before + host + after) == Some((text::lowered(host), Forge::Gitee)),
        source::host_item(before + (host + "=github"@) + after) == Some(
            (text::lowered(host), Forge::GitHub),
        ),
        source::host_item(Seq::empty()) is None,
{
    reveal_strlit("=github");
    reveal_strlit("github");
    reveal_strlit("www.");
    text::lemma_trimmed_around(before, host, after);
    text::lemma_trimmed_id(host);
    lemma_cut_none(host, '=');
    assert(text::stripped_starts(host, "www."@) == host);
    assert(text::lowered(host).len() == host.len());
    let full = host + "=github"@;
    assert(full[0] == host[0]);
    assert(full.last() == 'b');
    text::lemma_trimmed_around(before, full, after);
    assert(full =~= host.push('=') + "github"@);
    lemma_cut_at(host, '=', "github"@);
    assert("github"@[0] == 'g' && "github"@.last() == 'b');
    text::lemma_trimmed_id("github"@);
    text::lemma_trimmed_id(Seq::empty());
}

/// A plugin of the market is named by its address, with slashes behind the name or without.
pub proof fn market_addresses_name_the_plugin(name: Seq<char>, hosts: Seq<(Seq<char>, Forge)>)
    requires
        source::valid_plugin_name(name),
    ensures
        ({
            let r = source::parsed("itools-market://"@ + name, hosts);
            &&& r is Ok
            &&& r->Ok_0.host == "market"@
            &&& r->Ok_0.repo == name
            &&& r->Ok_0.url == "itools-market://"@ + name
            &&& r->Ok_0.owner.len() == 0
        }),
{
    reveal_strlit("itools-market://");
    let input = "itools-market://"@ + name;
    assert(input.subrange(0, 16) =~= "itools-market://"@);
    assert(source::plugin_name_char(name.last()));
    assert(source::plugin_name_char(name[0]));
    assert(input[0] == 'i');
    assert(input.last() == name.last());
    lemma_name_ends(name.last());
    lemma_name_ends(name[0]);
    assert(!text::is_space('i'));
    text::lemma_trimmed_id(input);
    text::lemma_trimmed_id(name);
    assert(input.skip(16) =~= name);
    assert(text::trimmed_end(name, |c: char| c == '/') =~= name);
}

proof fn lemma_name_ends(c: char)
    requires
        source::plugin_name_char(c),
    ensures
        !text::is_space(c),
        c != '/',
{
}

} // verus!
