//! Keeping access tokens out of messages.

use crate::text;
use vstd::prelude::*;
use vstd::slice::slice_subrange;

verus! {

/// The characters at which a token in a message ends.
pub open spec fn ends_token(c: char) -> bool {
    c == '&' || c == '#' || c == ':' || c == ')' || c == ',' || c == ';' || c == '"' || c == '\''
        || text::is_space(c)
}

/// The length of the token that a text starts with.
pub open spec fn token_len(s: Seq<char>) -> nat
    decreases s.len(),
{
    if s.len() == 0 || ends_token(s[0]) {
        0
    } else {
        1 + token_len(s.drop_first())
    }
}

/// The text with the value of every `access_token=` replaced by `***`.
pub open spec fn redacted(s: Seq<char>) -> Seq<char>
    decreases s.len(),
{
    proof {
        reveal_strlit("access_token=");
    }
    match text::first_match(text::lowered(s), "access_token="@) {
        None => s,
        Some(i) => {
            let after = i + "access_token="@.len();
            let tail = s.skip(after as int);
            proof {
                text::lemma_first_match(text::lowered(s), "access_token="@);
                lemma_token_len(tail);
            }
            s.take(after as int) + "***"@ + redacted(tail.skip(token_len(tail) as int))
        },
    }
}

fn find_token_end(s: &[char]) -> (r: usize)
    ensures
        r == token_len(s@),
        r <= s@.len(),
{
    let mut i: usize = 0;
    assert(s@.skip(0) == s@);
    while i < s.len()
        invariant
            i <= s@.len(),
            token_len(s@) == i + token_len(s@.skip(i as int)),
        decreases s@.len() - i,
    {
        assert(s@.skip(i as int).drop_first() == s@.skip(i + 1));
        let c = s[i];
        if c == '&' || c == '#' || c == ':' || c == ')' || c == ',' || c == ';' || c == '"' || c
            == '\'' || text::char_is_space(c) {
            return i;
        }
        i += 1;
    }
    i
}

/// Masks access tokens in a text that may reach the user or a log.
pub fn redact_token(s: String) -> (r: String)
    ensures
        r@ == redacted(s@),
{
    proof {
        reveal_strlit("access_token=");
    }
    let key = text::chars_of("access_token=");
    let all = text::chars_of(s.as_str());
    let mut out: Vec<char> = Vec::new();
    let stars = text::chars_of("***");
    let mut start: usize = 0;
    assert(all@.skip(0) == all@);
    assert(out@ + redacted(all@) == redacted(all@));
    loop
        invariant
            start <= all@.len(),
            all@ == s@,
            key@ == "access_token="@,
            key@.len() > 0,
            stars@ == "***"@,
            redacted(all@) == out@ + redacted(all@.skip(start as int)),
        decreases all@.len() - start,
    {
        let rest = slice_subrange(all.as_slice(), start, all.len());
        assert(rest@ == all@.skip(start as int));
        let low = text::to_lower(rest);
        proof {
            text::lemma_lowered_idempotent(rest@);
        }
        match text::find(low.as_slice(), key.as_slice()) {
            None => {
                text::push_all(&mut out, rest);
                return text::string_of(out.as_slice());
            },
            Some(i) => {
                let n: usize = rest.len();
                let after: usize = i + key.len();
                let head = slice_subrange(rest, 0, after);
                let tail = slice_subrange(rest, after, n);
                let cut = find_token_end(tail);
                assert(head@ == rest@.take(after as int));
                assert(tail@ == rest@.skip(after as int));
                let ghost before = out@;
                text::push_all(&mut out, head);
                text::push_all(&mut out, stars.as_slice());
                start = start + after + cut;
                assert(tail@.skip(cut as int) == all@.skip(start as int));
                assert(before + (head@ + "***"@ + redacted(all@.skip(start as int))) == out@
                    + redacted(all@.skip(start as int)));
            },
        }
    }
}

/// Whether every `access_token=` in the text, in any case, is followed by `***` and then by
/// the end or a character that ends a token.
pub open spec fn masked(s: Seq<char>) -> bool {
    forall|i: int|
        0 <= i <= s.len() && "access_token="@.is_prefix_of(#[trigger] text::lowered(s).skip(i))
            ==> {
            let t = s.skip(i + "access_token="@.len());
            &&& "***"@.is_prefix_of(t)
            &&& t.len() > 3 ==> ends_token(t[3])
        }
}

pub proof fn lemma_token_len(s: Seq<char>)
    ensures
        token_len(s) <= s.len(),
        token_len(s) < s.len() ==> ends_token(s[token_len(s) as int]),
    decreases s.len(),
{
    if s.len() > 0 && !ends_token(s[0]) {
        lemma_token_len(s.drop_first());
    }
}

/// A redacted text starts like the text itself.
proof fn lemma_redacted_start(s: Seq<char>)
    ensures
        s.len() == 0 <==> redacted(s).len() == 0,
        s.len() > 0 ==> redacted(s)[0] == s[0],
{
    reveal_strlit("access_token=");
    let low = text::lowered(s);
    text::lemma_first_match(low, "access_token="@);
}

/// No access token survives redaction.
pub proof fn redaction_masks_every_token(s: Seq<char>)
    ensures
        masked(redacted(s)),
    decreases s.len(),
{
    reveal_strlit("access_token=");
    reveal_strlit("***");
    let key = "access_token="@;
    let low = text::lowered(s);
    text::lemma_first_match(low, key);
    match text::first_match(low, key) {
        None => {
            assert(redacted(s) == s);
        },
        Some(i) => {
            let after = (i + 13) as int;
            let tail = s.skip(after);
            lemma_token_len(tail);
            let t = tail.skip(token_len(tail) as int);
            let rest = redacted(t);
            redaction_masks_every_token(t);
            lemma_redacted_start(t);
            let r = s.take(after) + "***"@ + rest;
            assert(r == redacted(s));
            let rlow = text::lowered(r);
            assert forall|j: int|
                0 <= j <= r.len() && key.is_prefix_of(#[trigger] rlow.skip(j)) implies {
                let u = r.skip(j + key.len());
                &&& "***"@.is_prefix_of(u)
                &&& u.len() > 3 ==> ends_token(u[3])
            } by {
                assert(rlow.skip(j).len() >= 13);
                assert forall|m: int| 0 <= m < 13 implies rlow[j + m] == key[m] by {
                    assert(rlow.skip(j)[m] == rlow.skip(j).subrange(0, 13)[m]);
                }
                if j + 13 <= after {
                    assert(low.skip(j).subrange(0, 13) =~= key) by {
                        assert forall|m: int| 0 <= m < 13 implies low[j + m] == key[m] by {
                            assert(rlow[j + m] == text::lower_char(r[j + m]));
                            assert(r[j + m] == s[j + m]);
                        }
                    }
                    assert(key.is_prefix_of(low.skip(j)));
                    assert(j >= i);
                    assert(j == i);
                    let u = r.skip(after);
                    assert(u =~= "***"@ + rest);
                    assert("***"@ =~= u.subrange(0, 3));
                    if u.len() > 3 {
                        assert(u[3] == rest[0]);
                        assert(t[0] == tail[token_len(tail) as int]);
                    }
                } else if j < after + 3 {
                    // An occurrence cannot run into the stars.
                    let m = if j < after {
                        after - j
                    } else {
                        0int
                    };
                    assert(r[j + m] == '*');
                    assert(rlow[j + m] == text::lower_char('*'));
                    assert(key[m] == '*');
                    assert(false);
                } else {
                    let k = j - after - 3;
                    let restlow = text::lowered(rest);
                    assert(restlow.skip(k) =~= rlow.skip(j));
                    assert(key.is_prefix_of(restlow.skip(k)));
                    assert(rest.skip(k + 13) =~= r.skip(j + 13));
                }
            }
        },
    }
}

/// Redacting twice changes nothing more.
pub proof fn redaction_is_idempotent(s: Seq<char>)
    ensures
        redacted(redacted(s)) == redacted(s),
    decreases s.len(),
{
    reveal_strlit("access_token=");
    reveal_strlit("***");
    let key = "access_token="@;
    let low = text::lowered(s);
    text::lemma_first_match(low, key);
    match text::first_match(low, key) {
        None => {},
        Some(i) => {
            let after = (i + 13) as int;
            let tail = s.skip(after);
            lemma_token_len(tail);
            let t = tail.skip(token_len(tail) as int);
            let rest = redacted(t);
            redaction_is_idempotent(t);
            lemma_redacted_start(t);
            let r = s.take(after) + "***"@ + rest;
            assert(r == redacted(s));
            let rlow = text::lowered(r);
            assert(rlow.take(after) =~= low.take(after));
            assert(key.is_prefix_of(rlow.skip(i as int))) by {
                assert(low.skip(i as int).subrange(0, 13) =~= rlow.skip(i as int).subrange(0, 13));
            }
            assert forall|j: int| 0 <= j < i implies !key.is_prefix_of(#[trigger] rlow.skip(j)) by {
                assert(!key.is_prefix_of(low.skip(j)));
                assert(rlow.skip(j).subrange(0, 13) =~= low.skip(j).subrange(0, 13));
            }
            text::lemma_first_match_is(rlow, key, i);
            let rtail = r.skip(after);
            assert(rtail =~= "***"@ + rest);
            assert(token_len(rtail) == 3) by {
                reveal_with_fuel(token_len, 4);
                assert(rtail.drop_first().drop_first().drop_first() =~= rest);
                if rest.len() > 0 {
                    assert(t[0] == tail[token_len(tail) as int]);
                }
            }
            assert(rtail.skip(3) =~= rest);
            assert(r.take(after) =~= s.take(after));
        },
    }
}

/// Whether a text is one token: nothing in it ends one.
pub open spec fn is_token(s: Seq<char>) -> bool {
    forall|i: int| 0 <= i < s.len() ==> !ends_token(#[trigger] s[i])
}

proof fn lemma_token_runs(s: Seq<char>, q: Seq<char>)
    requires
        is_token(s),
        q.len() > 0 ==> ends_token(q[0]),
    ensures
        token_len(s + q) == s.len(),
    decreases s.len(),
{
    if s.len() == 0 {
        assert(s + q =~= q);
    } else {
        assert((s + q)[0] == s[0]);
        assert((s + q).drop_first() =~= s.drop_first() + q);
        assert forall|i: int| 0 <= i < s.drop_first().len() implies !ends_token(
            #[trigger] s.drop_first()[i],
        ) by {
            assert(s.drop_first()[i] == s[i + 1]);
        }
        lemma_token_runs(s.drop_first(), q);
    }
}

proof fn lemma_token_stops(a: Seq<char>, b: Seq<char>)
    requires
        token_len(a) < a.len(),
    ensures
        token_len(a + b) == token_len(a),
    decreases a.len(),
{
    assert((a + b)[0] == a[0]);
    if !ends_token(a[0]) {
        assert((a + b).drop_first() =~= a.drop_first() + b);
        lemma_token_stops(a.drop_first(), b);
    }
}

proof fn lemma_token_whole(a: Seq<char>)
    requires
        token_len(a) == a.len(),
    ensures
        is_token(a),
    decreases a.len(),
{
    if a.len() > 0 {
        lemma_token_whole(a.drop_first());
        assert forall|i: int| 0 <= i < a.len() implies !ends_token(#[trigger] a[i]) by {
            if i > 0 {
                assert(a.drop_first()[i - 1] == a[i]);
            }
        }
    }
}

/// Whether a text is the key in front of a token, in any case.
pub open spec fn is_key(k: Seq<char>) -> bool {
    text::lowered(k) == "access_token="@
}

/// What redacting a text with a token in it gives, without the token: `p` stands in front of
/// the key, `q` behind the token.
spec fn around(p: Seq<char>, k: Seq<char>, q: Seq<char>) -> Seq<char>
    decreases p.len(),
{
    proof {
        reveal_strlit("access_token=");
    }
    let key = "access_token="@;
    match text::first_match(text::lowered(p), key) {
        None => p + k + "***"@ + redacted(q),
        Some(i) => {
            let tail = p.skip((i + key.len()) as int);
            proof {
                text::lemma_first_match(text::lowered(p), key);
                lemma_token_len(tail);
            }
            let n = token_len(tail);
            p.take((i + key.len()) as int) + "***"@ + (if n < tail.len() {
                around(tail.skip(n as int), k, q)
            } else {
                redacted(q)
            })
        },
    }
}

/// Matches of a key in a text with the key, written `k`, behind `p`: one at the end of `p`, and
/// before it those in `p` alone, for the last character of the key stands nowhere else in it.
proof fn lemma_matches(p: Seq<char>, key: Seq<char>, k: Seq<char>, more: Seq<char>)
    requires
        key.len() > 0,
        text::lowered(k) == key,
        forall|m: int| 0 <= m < key.len() - 1 ==> #[trigger] key[m] != key.last(),
    ensures
        key.is_prefix_of(text::lowered(p + k + more).skip(p.len() as int)),
        forall|j: int|
            0 <= j < p.len() ==> (key.is_prefix_of(
                #[trigger] text::lowered(p + k + more).skip(j),
            ) <==> j + key.len() <= p.len() && key.is_prefix_of(text::lowered(p).skip(j))),
{
    let s = p + k + more;
    let low = text::lowered(s);
    let plow = text::lowered(p);
    let at = p.len() as int;
    let n = key.len() as int;
    assert forall|m: int| 0 <= m < n implies low[at + m] == #[trigger] key[m] by {
        assert(s[at + m] == k[m]);
        assert(text::lowered(k)[m] == text::lower_char(k[m]));
    }
    assert(low.skip(at).subrange(0, n) =~= key);
    assert forall|j: int| 0 <= j < at implies (key.is_prefix_of(#[trigger] low.skip(j)) <==> j + n
        <= at && key.is_prefix_of(plow.skip(j))) by {
        if key.is_prefix_of(low.skip(j)) {
            assert(low.skip(j).subrange(0, n)[n - 1] == key[n - 1]);
            if j + n > at {
                let o = j + n - 1 - at;
                assert(low[at + o] == key[o]);
                assert(key[o] == key.last());
                assert(false);
            }
        }
        if j + n <= at {
            assert(plow.skip(j).subrange(0, n) =~= low.skip(j).subrange(0, n));
        }
    }
}

proof fn lemma_key(k: Seq<char>)
    requires
        is_key(k),
    ensures
        k.len() == 13,
        is_token(k),
        ({
            let key = "access_token="@;
            &&& key.len() == 13
            &&& forall|m: int| 0 <= m < key.len() - 1 ==> #[trigger] key[m] != key.last()
        }),
{
    reveal_strlit("access_token=");
    let key = "access_token="@;
    assert(text::lowered(k).len() == k.len());
    assert forall|i: int| 0 <= i < k.len() implies !ends_token(#[trigger] k[i]) by {
        assert(key[i] == text::lower_char(k[i]));
        assert(!ends_token(key[i]));
    }
}

/// Behind a match in `p`, the token that starts there and what follows it.
proof fn lemma_behind(tail: Seq<char>, k: Seq<char>, t: Seq<char>, q: Seq<char>)
    requires
        is_token(k),
        k.len() > 0,
        is_token(t),
        q.len() > 0 ==> ends_token(q[0]),
    ensures
        ({
            let all = tail + (k + t + q);
            let n = token_len(tail) as int;
            if n < tail.len() {
                token_len(all) == n && all.skip(n) == tail.skip(n) + k + t + q
            } else {
                all.skip(token_len(all) as int) == q
            }
        }),
{
    let all = tail + (k + t + q);
    let n = token_len(tail) as int;
    lemma_token_len(tail);
    if n < tail.len() {
        lemma_token_stops(tail, k + t + q);
        assert(all.skip(n) =~= tail.skip(n) + k + t + q);
    } else {
        lemma_token_whole(tail);
        let run = tail + k + t;
        assert forall|j: int| 0 <= j < run.len() implies !ends_token(#[trigger] run[j]) by {
            if j < tail.len() {
                assert(run[j] == tail[j]);
            } else if j < tail.len() + k.len() {
                assert(run[j] == k[j - tail.len()]);
            } else {
                assert(run[j] == t[j - tail.len() - k.len()]);
            }
        }
        assert(all =~= run + q);
        lemma_token_runs(run, q);
        assert(all.skip(run.len() as int) =~= q);
    }
}

proof fn lemma_around(p: Seq<char>, k: Seq<char>, t: Seq<char>, q: Seq<char>)
    requires
        is_key(k),
        is_token(t),
        q.len() > 0 ==> ends_token(q[0]),
    ensures
        redacted(p + k + t + q) == around(p, k, q),
    decreases p.len(),
{
    let key = "access_token="@;
    lemma_key(k);
    let s = p + k + t + q;
    assert(s =~= p + k + (t + q));
    let low = text::lowered(s);
    let plow = text::lowered(p);
    text::lemma_first_match(plow, key);
    lemma_matches(p, key, k, t + q);
    let at = p.len() as int;
    match text::first_match(plow, key) {
        None => {
            text::lemma_first_match_is(low, key, at as nat);
            let tail = s.skip(at + 13);
            assert(tail =~= t + q);
            lemma_token_runs(t, q);
            assert(tail.skip(t.len() as int) =~= q);
            assert(s.take(at + 13) =~= p + k);
        },
        Some(i) => {
            let after = (i + 13) as int;
            assert(key.is_prefix_of(plow.skip(i as int)));
            assert(key.is_prefix_of(low.skip(i as int)));
            text::lemma_first_match_is(low, key, i);
            let ptail = p.skip(after);
            let tail = s.skip(after);
            assert(tail =~= ptail + (k + t + q));
            assert(s.take(after) =~= p.take(after));
            lemma_token_len(ptail);
            lemma_behind(ptail, k, t, q);
            if token_len(ptail) < ptail.len() {
                lemma_around(ptail.skip(token_len(ptail) as int), k, t, q);
            }
        },
    }
}

/// What is left of a text does not depend on the token: whatever stands behind the key, in any
/// case that it is written in, the redacted text is the same.
pub proof fn redaction_tells_nothing_of_the_token(
    p: Seq<char>,
    k: Seq<char>,
    one: Seq<char>,
    other: Seq<char>,
    q: Seq<char>,
)
    requires
        is_key(k),
        is_token(one),
        is_token(other),
        q.len() > 0 ==> ends_token(q[0]),
    ensures
        redacted(p + k + one + q) == redacted(p + k + other + q),
{
    lemma_around(p, k, one, q);
    lemma_around(p, k, other, q);
}

/// Nothing but tokens is masked: a text without the key stays as it is, and around a token all
/// stays, in front of the key, the key itself and what follows.
pub proof fn only_tokens_are_masked(p: Seq<char>, k: Seq<char>, t: Seq<char>, q: Seq<char>)
    requires
        !text::occurs(text::lowered(p), "access_token="@),
        is_key(k),
        is_token(t),
        q.len() > 0 ==> ends_token(q[0]),
    ensures
        redacted(p) == p,
        redacted(p + k + t + q) == p + k + "***"@ + redacted(q),
{
    lemma_around(p, k, t, q);
}

/// A token ends at white space, at what separates the parts of an address and at what
/// separates words in a message; letters, digits and the like never end one.
pub proof fn tokens_end_at_separators(c: char)
    ensures
        c == '&' || c == '#' || c == ':' || c == ')' || c == ',' || c == ';' || c == '"' || c
            == '\'' || c == ' ' ==> ends_token(c),
        text::is_space(c) ==> ends_token(c),
        text::is_alnum(c) || c == '-' || c == '_' || c == '.' || c == '=' || c == '%' || c == '/'
            || c == '+' || c == '~' ==> !ends_token(c),
{
}

} // verus!
