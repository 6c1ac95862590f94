//! Comparing version numbers.

use crate::text;
use vstd::prelude::*;

verus! {

/// The number of one part of a version; what is no number counts as 0.
pub open spec fn part_value(s: Seq<char>) -> u32 {
    match text::u32_of(text::trimmed(s)) {
        Some(n) => n,
        None => 0,
    }
}

/// The parts of a version: leading `v`s go, dots separate.
pub open spec fn version_parts(s: Seq<char>) -> Seq<Seq<char>> {
    text::pieces(text::trimmed_start(text::trimmed(s), |c: char| c == 'v'), '.')
}

/// The number at a place of a version; missing parts are 0.
pub open spec fn part_at(s: Seq<char>, i: int) -> u32 {
    let v = version_parts(s);
    if 0 <= i < v.len() {
        part_value(v[i])
    } else {
        0
    }
}

/// Whether the versions agree before a place.
pub open spec fn same_before(a: Seq<char>, b: Seq<char>, i: int) -> bool {
    forall|j: int| 0 <= j < i ==> #[trigger] part_at(a, j) == part_at(b, j)
}

/// Whether version `a` is greater than version `b`: at the first place where they differ.
pub open spec fn newer(a: Seq<char>, b: Seq<char>) -> bool {
    exists|i: int| 0 <= i && same_before(a, b, i) && #[trigger] part_at(a, i) > part_at(b, i)
}

fn version_numbers(s: &str) -> (r: Vec<u32>)
    ensures
        r@.len() == version_parts(s@).len(),
        forall|i: int| 0 <= i < r@.len() ==> #[trigger] r@[i] == part_at(s@, i),
{
    let v = text::chars_of(s);
    let t = text::trim_start_char(text::trim(v.as_slice()), 'v');
    let parts = text::split(t, '.');
    let ghost all = text::views(parts@);
    let mut out: Vec<u32> = Vec::new();
    let mut i: usize = 0;
    while i < parts.len()
        invariant
            i <= parts@.len(),
            all == text::views(parts@),
            all == version_parts(s@),
            out@.len() == i,
            forall|j: int| 0 <= j < i ==> #[trigger] out@[j] == part_at(s@, j),
        decreases parts@.len() - i,
    {
        assert(all[i as int] == parts@[i as int]@);
        let n: u32 = match text::parse_u32(text::trim(parts[i].as_slice())) {
            Some(n) => n,
            None => 0,
        };
        out.push(n);
        i += 1;
    }
    out
}

/// Whether version `a` is greater than version `b`, see [`newer`].
pub fn version_gt(a: &str, b: &str) -> (r: bool)
    ensures
        r == newer(a@, b@),
{
    let x = version_numbers(a);
    let y = version_numbers(b);
    let n: usize = if x.len() > y.len() {
        x.len()
    } else {
        y.len()
    };
    let mut i: usize = 0;
    while i < n
        invariant
            i <= n,
            n >= x@.len(),
            n >= y@.len(),
            x@.len() == version_parts(a@).len(),
            y@.len() == version_parts(b@).len(),
            forall|j: int| 0 <= j < x@.len() ==> #[trigger] x@[j] == part_at(a@, j),
            forall|j: int| 0 <= j < y@.len() ==> #[trigger] y@[j] == part_at(b@, j),
            same_before(a@, b@, i as int),
        decreases n - i,
    {
        let p: u32 = if i < x.len() {
            x[i]
        } else {
            0
        };
        let q: u32 = if i < y.len() {
            y[i]
        } else {
            0
        };
        assert(p == part_at(a@, i as int));
        assert(q == part_at(b@, i as int));
        if p != q {
            proof {
                if p < q && newer(a@, b@) {
                    let k = choose|k: int|
                        0 <= k && same_before(a@, b@, k) && #[trigger] part_at(a@, k) > part_at(
                            b@,
                            k,
                        );
                    if k > i {
                        assert(part_at(a@, i as int) == part_at(b@, i as int));
                    }
                    if k < i {
                        assert(part_at(a@, k) == part_at(b@, k));
                    }
                }
            }
            return p > q;
        }
        i += 1;
    }
    proof {
        if newer(a@, b@) {
            let k = choose|k: int|
                0 <= k && same_before(a@, b@, k) && #[trigger] part_at(a@, k) > part_at(b@, k);
            if k < i {
                assert(part_at(a@, k) == part_at(b@, k));
            }
        }
    }
    false
}

/// No version is greater than itself.
pub proof fn no_version_is_newer_than_itself(a: Seq<char>)
    ensures
        !newer(a, a),
{
}

/// Of two versions at most one is greater.
pub proof fn newer_is_asymmetric(a: Seq<char>, b: Seq<char>)
    requires
        newer(a, b),
    ensures
        !newer(b, a),
{
    let i = choose|i: int|
        0 <= i && same_before(a, b, i) && #[trigger] part_at(a, i) > part_at(b, i);
    if newer(b, a) {
        let k = choose|k: int|
            0 <= k && same_before(b, a, k) && #[trigger] part_at(b, k) > part_at(a, k);
        if i < k {
            assert(part_at(b, i) == part_at(a, i));
        }
        if k < i {
            assert(part_at(a, k) == part_at(b, k));
        }
    }
}

/// Being greater is transitive.
pub proof fn newer_is_transitive(a: Seq<char>, b: Seq<char>, c: Seq<char>)
    requires
        newer(a, b),
        newer(b, c),
    ensures
        newer(a, c),
{
    let i = choose|i: int|
        0 <= i && same_before(a, b, i) && #[trigger] part_at(a, i) > part_at(b, i);
    let k = choose|k: int|
        0 <= k && same_before(b, c, k) && #[trigger] part_at(b, k) > part_at(c, k);
    let m = if i < k {
        i
    } else {
        k
    };
    assert forall|j: int| 0 <= j < m implies #[trigger] part_at(a, j) == part_at(c, j) by {
        assert(part_at(a, j) == part_at(b, j));
        assert(part_at(b, j) == part_at(c, j));
    }
    if i < k {
        assert(part_at(b, i) == part_at(c, i));
    }
    if k < i {
        assert(part_at(a, k) == part_at(b, k));
    }
    assert(same_before(a, c, m));
    assert(part_at(a, m) > part_at(c, m));
}

proof fn lemma_start_stays(s: Seq<char>, t: Seq<char>, p: spec_fn(char) -> bool)
    requires
        t.len() > 0,
        !p(t[0]),
    ensures
        text::trimmed_start(s + t, p) == text::trimmed_start(s, p) + t,
    decreases s.len(),
{
    if s.len() == 0 {
        assert(s + t =~= t);
        assert(text::trimmed_start(s, p) + t =~= t);
    } else if p(s[0]) {
        assert((s + t).drop_first() =~= s.drop_first() + t);
        lemma_start_stays(s.drop_first(), t, p);
    }
}

proof fn lemma_same_parts(a: Seq<char>, c: Seq<char>, b: Seq<char>)
    requires
        forall|i: int| 0 <= i ==> #[trigger] part_at(a, i) == part_at(c, i),
    ensures
        newer(a, b) == newer(c, b),
        newer(b, a) == newer(b, c),
{
    assert forall|i: int| 0 <= i implies same_before(a, b, i) == same_before(c, b, i)
        && same_before(b, a, i) == same_before(b, c, i) by {
        assert forall|j: int| 0 <= j < i implies part_at(a, j) == part_at(c, j) by {}
        if same_before(a, b, i) {
            assert forall|j: int| 0 <= j < i implies #[trigger] part_at(c, j) == part_at(b, j) by {
                assert(part_at(a, j) == part_at(b, j));
            }
        }
        if same_before(c, b, i) {
            assert forall|j: int| 0 <= j < i implies #[trigger] part_at(a, j) == part_at(b, j) by {
                assert(part_at(c, j) == part_at(b, j));
            }
        }
        if same_before(b, a, i) {
            assert forall|j: int| 0 <= j < i implies #[trigger] part_at(b, j) == part_at(c, j) by {
                assert(part_at(a, j) == part_at(c, j));
            }
        }
        if same_before(b, c, i) {
            assert forall|j: int| 0 <= j < i implies #[trigger] part_at(b, j) == part_at(a, j) by {
                assert(part_at(a, j) == part_at(c, j));
            }
        }
    }
    if newer(a, b) {
        let i = choose|i: int|
            0 <= i && same_before(a, b, i) && #[trigger] part_at(a, i) > part_at(b, i);
        assert(part_at(c, i) > part_at(b, i));
    }
    if newer(c, b) {
        let i = choose|i: int|
            0 <= i && same_before(c, b, i) && #[trigger] part_at(c, i) > part_at(b, i);
        assert(part_at(a, i) > part_at(b, i));
    }
    if newer(b, a) {
        let i = choose|i: int|
            0 <= i && same_before(b, a, i) && #[trigger] part_at(b, i) > part_at(a, i);
        assert(part_at(a, i) == part_at(c, i));
        assert(same_before(b, c, i));
    }
    if newer(b, c) {
        let i = choose|i: int|
            0 <= i && same_before(b, c, i) && #[trigger] part_at(b, i) > part_at(c, i);
        assert(part_at(a, i) == part_at(c, i));
        assert(same_before(b, a, i));
    }
}

/// A zero part at the end of a version, when no white space ends it, changes no comparison.
pub proof fn last_zeros_do_not_count(a: Seq<char>, b: Seq<char>)
    requires
        a.len() > 0 ==> !text::is_space(a.last()),
    ensures
        newer(a + ".0"@, b) == newer(a, b),
        newer(b, a + ".0"@) == newer(b, a),
{
    reveal_strlit(".0");
    let space = |c: char| text::is_space(c);
    let vee = |c: char| c == 'v';
    let zero = seq!['0'];
    let tail = ".0"@;
    assert(tail =~= seq!['.', '0']);
    let long = a + tail;
    let start = text::trimmed_start(a, space);
    lemma_start_stays(a, tail, space);
    text::lemma_trimmed_start(a, space);
    assert((start + tail).last() == '0');
    assert(text::trimmed(long) == start + tail);
    if start.len() > 0 {
        assert(start.last() == a.last());
    }
    assert(text::trimmed(a) == start);
    let x = text::trimmed_start(start, vee);
    lemma_start_stays(start, tail, vee);
    assert(x + tail =~= x.push('.') + zero);
    text::lemma_pieces_back(x, '.', zero);
    assert(version_parts(long) == version_parts(a).push(zero));
    assert(part_value(zero) == 0) by {
        text::lemma_trimmed_id(zero);
        reveal_with_fuel(text::digits_value, 2);
    }
    assert forall|i: int| 0 <= i implies #[trigger] part_at(long, i) == part_at(a, i) by {}
    lemma_same_parts(long, a, b);
}

/// A `v` in front of a version, when no white space starts it, changes no comparison.
pub proof fn leading_v_does_not_count(a: Seq<char>, b: Seq<char>)
    requires
        a.len() > 0 ==> !text::is_space(a[0]),
    ensures
        newer(seq!['v'] + a, b) == newer(a, b),
        newer(b, seq!['v'] + a) == newer(b, a),
{
    let space = |c: char| text::is_space(c);
    let long = seq!['v'] + a;
    assert(text::trimmed_start(long, space) == long);
    assert(text::trimmed_start(a, space) == a);
    lemma_end_stays(a, space);
    let te = text::trimmed_end(a, space);
    assert((seq!['v'] + te).drop_first() =~= te);
    assert(version_parts(long) == version_parts(a));
    assert forall|i: int| 0 <= i implies #[trigger] part_at(long, i) == part_at(a, i) by {}
    lemma_same_parts(long, a, b);
}

proof fn lemma_end_stays(s: Seq<char>, p: spec_fn(char) -> bool)
    requires
        !p('v'),
    ensures
        text::trimmed_end(seq!['v'] + s, p) == seq!['v'] + text::trimmed_end(s, p),
    decreases s.len(),
{
    if s.len() == 0 {
        assert(seq!['v'] + s =~= seq!['v']);
        assert(seq!['v'] + text::trimmed_end(s, p) =~= seq!['v']);
    } else {
        assert((seq!['v'] + s).last() == s.last());
        if p(s.last()) {
            assert((seq!['v'] + s).drop_last() =~= seq!['v'] + s.drop_last());
            lemma_end_stays(s.drop_last(), p);
        }
    }
}

/// A text of digits reads as its number, where it fits in 32 bits, and as 0 where it does not.
proof fn lemma_number_part(n: nat)
    ensures
        part_value(text::decimal_text(n)) == if n <= u32::MAX {
            n
        } else {
            0
        },
        !text::decimal_text(n).contains('.'),
        text::decimal_text(n).len() > 0,
        text::is_digit(text::decimal_text(n)[0]),
        text::is_digit(text::decimal_text(n).last()),
{
    let d = text::decimal_text(n);
    text::decimal_reads_back(n);
    assert(text::is_digit(d[0]));
    assert(text::is_digit(d[d.len() - 1]));
    text::lemma_trimmed_id(d);
    if d.contains('.') {
        let j = choose|j: int| 0 <= j < d.len() && d[j] == '.';
        assert(text::is_digit(d[j]));
    }
}

/// A last part that neither ends in white space nor holds a dot is one part more.
proof fn lemma_last_part(p: Seq<char>, d: Seq<char>)
    requires
        d.len() > 0,
        !text::is_space(d.last()),
        !d.contains('.'),
    ensures
        version_parts(p + "."@ + d) == text::pieces(
            text::trimmed_start(
                text::trimmed_start(p, |c: char| text::is_space(c)),
                |c: char| c == 'v',
            ),
            '.',
        ).push(d),
{
    reveal_strlit(".");
    let space = |c: char| text::is_space(c);
    let vee = |c: char| c == 'v';
    assert("."@ =~= seq!['.']);
    let tail = seq!['.'] + d;
    let long = p + "."@ + d;
    assert(long =~= p + tail);
    let start = text::trimmed_start(p, space);
    lemma_start_stays(p, tail, space);
    assert((start + tail).last() == d.last());
    assert(text::trimmed(long) == start + tail);
    let x = text::trimmed_start(start, vee);
    lemma_start_stays(start, tail, vee);
    assert(x + tail =~= x.push('.') + d);
    text::lemma_pieces_back(x, '.', d);
}

/// Where two versions differ in the last part alone, the one with the greater number there is
/// the newer one, whatever stands in front: 1.10 is newer than 1.9.
pub proof fn greater_last_parts_are_newer(p: Seq<char>, n: nat, m: nat)
    requires
        m < n <= u32::MAX,
    ensures
        newer(p + "."@ + text::decimal_text(n), p + "."@ + text::decimal_text(m)),
        !newer(p + "."@ + text::decimal_text(m), p + "."@ + text::decimal_text(n)),
{
    let a = p + "."@ + text::decimal_text(n);
    let b = p + "."@ + text::decimal_text(m);
    lemma_number_part(n);
    lemma_number_part(m);
    lemma_last_part(p, text::decimal_text(n));
    lemma_last_part(p, text::decimal_text(m));
    let k = version_parts(a).len() - 1;
    assert forall|j: int| 0 <= j < k implies #[trigger] part_at(a, j) == part_at(b, j) by {
        assert(version_parts(a)[j] == version_parts(b)[j]);
    }
    assert(same_before(a, b, k));
    assert(part_at(a, k) == n);
    assert(part_at(b, k) == m);
    newer_is_asymmetric(a, b);
}

/// A part that is made of letters, or that is a number of more than 32 bits, counts as 0.
pub proof fn other_parts_count_as_zero(p: Seq<char>, w: Seq<char>, n: nat, b: Seq<char>)
    requires
        w.len() > 0,
        forall|i: int| 0 <= i < w.len() ==> text::is_letter(#[trigger] w[i]),
        n > u32::MAX,
    ensures
        newer(p + "."@ + w, b) == newer(p + "."@ + text::decimal_text(0), b),
        newer(b, p + "."@ + w) == newer(b, p + "."@ + text::decimal_text(0)),
        newer(p + "."@ + text::decimal_text(n), b) == newer(p + "."@ + text::decimal_text(0), b),
        newer(b, p + "."@ + text::decimal_text(n)) == newer(b, p + "."@ + text::decimal_text(0)),
{
    let zero = p + "."@ + text::decimal_text(0);
    let word = p + "."@ + w;
    let large = p + "."@ + text::decimal_text(n);
    lemma_number_part(0);
    lemma_number_part(n);
    assert(text::is_letter(w[0]));
    assert(text::is_letter(w[w.len() - 1]));
    text::lemma_trimmed_id(w);
    assert(part_value(w) == 0) by {
        assert(!text::is_digit(w[0]));
    }
    if w.contains('.') {
        let j = choose|j: int| 0 <= j < w.len() && w[j] == '.';
        assert(text::is_letter(w[j]));
    }
    lemma_last_part(p, text::decimal_text(0));
    lemma_last_part(p, text::decimal_text(n));
    lemma_last_part(p, w);
    let k = version_parts(zero).len() - 1;
    assert forall|i: int| 0 <= i implies #[trigger] part_at(word, i) == part_at(zero, i) by {
        if i < k {
            assert(version_parts(word)[i] == version_parts(zero)[i]);
        }
    }
    assert forall|i: int| 0 <= i implies #[trigger] part_at(large, i) == part_at(zero, i) by {
        if i < k {
            assert(version_parts(large)[i] == version_parts(zero)[i]);
        }
    }
    lemma_same_parts(word, zero, b);
    lemma_same_parts(large, zero, b);
}

/// Numbers with dots between them.
pub open spec fn dotted(v: Seq<u32>) -> Seq<char> {
    text::joined(v.map_values(|n: u32| text::decimal_text(n as nat)), "."@)
}

/// The number at a place of a list; beyond its end all are 0.
pub open spec fn number_at(v: Seq<u32>, i: int) -> u32 {
    if 0 <= i < v.len() {
        v[i]
    } else {
        0
    }
}

proof fn lemma_dotted_ends(v: Seq<u32>)
    requires
        v.len() > 0,
    ensures
        dotted(v).len() > 0,
        text::is_digit(dotted(v)[0]),
        text::is_digit(dotted(v).last()),
    decreases v.len(),
{
    let f = |n: u32| text::decimal_text(n as nat);
    let t = v.map_values(f);
    lemma_number_part(v.last() as nat);
    if v.len() > 1 {
        lemma_dotted_ends(v.drop_last());
        assert(t.drop_last() =~= v.drop_last().map_values(f));
        assert(dotted(v) == dotted(v.drop_last()) + "."@ + text::decimal_text(v.last() as nat));
    } else {
        assert(dotted(v) == text::decimal_text(v[0] as nat));
    }
}

/// The numbers of a version are those that were written with dots between them.
proof fn lemma_dotted(v: Seq<u32>)
    requires
        v.len() > 0,
    ensures
        forall|i: int| 0 <= i ==> #[trigger] part_at(dotted(v), i) == number_at(v, i),
{
    reveal_strlit(".");
    assert("."@ =~= seq!['.']);
    let t = v.map_values(|n: u32| text::decimal_text(n as nat));
    lemma_dotted_ends(v);
    text::lemma_trimmed_id(dotted(v));
    assert forall|k: int| 0 <= k < t.len() implies !(#[trigger] t[k]).contains('.') by {
        lemma_number_part(v[k] as nat);
    }
    text::lemma_pieces_joined(t, '.');
    assert(version_parts(dotted(v)) == t);
    assert forall|i: int| 0 <= i implies #[trigger] part_at(dotted(v), i) == number_at(v, i) by {
        if i < v.len() {
            lemma_number_part(v[i] as nat);
        }
    }
}

/// No white space is around numbers with dots between them.
pub proof fn dotted_versions_are_trimmed(v: Seq<u32>)
    requires
        v.len() > 0,
    ensures
        text::trimmed(dotted(v)) == dotted(v),
        dotted(v).len() > 0,
{
    lemma_dotted_ends(v);
    text::lemma_trimmed_id(dotted(v));
}

/// Versions made of numbers compare number by number: the first place where they differ
/// decides, and missing numbers are 0.
pub proof fn versions_compare_by_their_numbers(a: Seq<u32>, b: Seq<u32>)
    requires
        a.len() > 0,
        b.len() > 0,
    ensures
        newer(dotted(a), dotted(b)) <==> exists|k: int|
            0 <= k && #[trigger] number_at(a, k) > number_at(b, k) && (forall|j: int|
                0 <= j < k ==> #[trigger] number_at(a, j) == number_at(b, j)),
{
    lemma_dotted(a);
    lemma_dotted(b);
    let x = dotted(a);
    let y = dotted(b);
    if newer(x, y) {
        let k = choose|k: int|
            0 <= k && same_before(x, y, k) && #[trigger] part_at(x, k) > part_at(y, k);
        assert(number_at(a, k) > number_at(b, k));
        assert forall|j: int| 0 <= j < k implies #[trigger] number_at(a, j) == number_at(b, j) by {
            assert(part_at(x, j) == part_at(y, j));
        }
    }
    if exists|k: int|
        0 <= k && #[trigger] number_at(a, k) > number_at(b, k) && (forall|j: int|
            0 <= j < k ==> #[trigger] number_at(a, j) == number_at(b, j)) {
        let k = choose|k: int|
            0 <= k && #[trigger] number_at(a, k) > number_at(b, k) && (forall|j: int|
                0 <= j < k ==> #[trigger] number_at(a, j) == number_at(b, j));
        assert forall|j: int| 0 <= j < k implies #[trigger] part_at(x, j) == part_at(y, j) by {
            assert(number_at(a, j) == number_at(b, j));
        }
        assert(same_before(x, y, k));
        assert(part_at(x, k) > part_at(y, k));
    }
}

} // verus!
