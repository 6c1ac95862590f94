//! Text as sequences of characters: trimming, splitting, searching, joining.
//!
//! Executable functions work on character slices; their contracts are stated
//! over `Seq<char>`, which is also the view of `str` and `String`.

use vstd::prelude::*;
use vstd::slice::slice_subrange;

verus! {

broadcast use vstd::seq_lib::group_seq_properties;

// ---------------------------------------------------------------------------
// Characters
// ---------------------------------------------------------------------------

/// The characters with the Unicode `White_Space` property.
pub open spec fn is_space(c: char) -> bool {
    let n = c as u32;
    ||| 0x09 <= n <= 0x0d
    ||| n == 0x20
    ||| n == 0x85
    ||| n == 0xa0
    ||| n == 0x1680
    ||| 0x2000 <= n <= 0x200a
    ||| n == 0x2028
    ||| n == 0x2029
    ||| n == 0x202f
    ||| n == 0x205f
    ||| n == 0x3000
}

pub open spec fn is_digit(c: char) -> bool {
    '0' <= c <= '9'
}

pub open spec fn is_letter(c: char) -> bool {
    ('a' <= c <= 'z') || ('A' <= c <= 'Z')
}

pub open spec fn is_alnum(c: char) -> bool {
    is_letter(c) || is_digit(c)
}

pub open spec fn is_hex(c: char) -> bool {
    is_digit(c) || ('a' <= c <= 'f') || ('A' <= c <= 'F')
}

/// ASCII lower case; every other character is kept.
pub open spec fn lower_char(c: char) -> char {
    if 'A' <= c <= 'Z' {
        ((c as u8 + 32) as u8) as char
    } else {
        c
    }
}

/// White space test, see [`is_space`].
pub fn char_is_space(c: char) -> (r: bool)
    ensures
        r == is_space(c),
{
    let n: u32 = c as u32;
    (0x09 <= n && n <= 0x0d) || n == 0x20 || n == 0x85 || n == 0xa0 || n == 0x1680 || (0x2000 <= n
        && n <= 0x200a) || n == 0x2028 || n == 0x2029 || n == 0x202f || n == 0x205f || n == 0x3000
}

pub fn char_is_alnum(c: char) -> (r: bool)
    ensures
        r == is_alnum(c),
{
    ('a' <= c && c <= 'z') || ('A' <= c && c <= 'Z') || ('0' <= c && c <= '9')
}

pub fn char_is_hex(c: char) -> (r: bool)
    ensures
        r == is_hex(c),
{
    ('0' <= c && c <= '9') || ('a' <= c && c <= 'f') || ('A' <= c && c <= 'F')
}

pub fn char_to_lower(c: char) -> (r: char)
    ensures
        r == lower_char(c),
{
    if 'A' <= c && c <= 'Z' {
        (c as u8 + 32) as char
    } else {
        c
    }
}

// ---------------------------------------------------------------------------
// Between strings and character sequences
// ---------------------------------------------------------------------------

/// The views of a list of character vectors.
pub open spec fn views(v: Seq<Vec<char>>) -> Seq<Seq<char>> {
    v.map_values(|x: Vec<char>| x@)
}

/// The views of a list of strings.
pub open spec fn texts(v: Seq<String>) -> Seq<Seq<char>> {
    v.map_values(|x: String| x@)
}

/// The view of a fallible result whose error is a message.
pub open spec fn outcome<T: View>(r: Result<T, String>) -> Result<T::V, Seq<char>> {
    match r {
        Ok(x) => Ok(x@),
        Err(e) => Err(e@),
    }
}

/// A fallible result of a plain value, whose error is a message.
pub open spec fn outcome_of<T>(r: Result<T, String>) -> Result<T, Seq<char>> {
    match r {
        Ok(v) => Ok(v),
        Err(e) => Err(e@),
    }
}

/// The message of a result that holds nothing else: `None` for success.
pub open spec fn message_of(r: Result<(), String>) -> Option<Seq<char>> {
    match r {
        Ok(_) => None,
        Err(e) => Some(e@),
    }
}

/// The view of an optional borrowed string.
pub open spec fn opt_str(s: Option<&str>) -> Option<Seq<char>> {
    match s {
        Some(x) => Some(x@),
        None => None,
    }
}

/// The view of an optional value.
pub open spec fn opt_view<T: View>(x: Option<T>) -> Option<T::V> {
    match x {
        Some(v) => Some(v@),
        None => None,
    }
}

/// `String::push` of std appends one character to the end.
pub assume_specification[ String::push ](s: &mut String, c: char)
    ensures
        final(s)@ == old(s)@.push(c),
;

/// The characters of a string, in order.
pub fn chars_of(s: &str) -> (r: Vec<char>)
    ensures
        r@ == s@,
{
    let mut out: Vec<char> = Vec::new();
    for c in it: s.chars()
        invariant
            out@ == it.seq().take(it.index() as int),
            it.seq() == s@,
    {
        out.push(c);
    }
    out
}

/// The string that holds the given characters, in order.
pub fn string_of(s: &[char]) -> (r: String)
    ensures
        r@ == s@,
{
    let mut out = String::new();
    let mut i: usize = 0;
    while i < s.len()
        invariant
            i <= s@.len(),
            out@ == s@.take(i as int),
        decreases s@.len() - i,
    {
        out.push(s[i]);
        i += 1;
        assert(s@.take(i as int) == s@.take(i - 1).push(s@[i - 1]));
    }
    assert(s@.take(s@.len() as int) == s@);
    out
}

/// Whether a character sequence spells the given string.
pub fn same(s: &[char], t: &str) -> (r: bool)
    ensures
        r == (s@ == t@),
{
    let u = chars_of(t);
    eq(s, u.as_slice())
}

/// Whether two character sequences are equal.
pub fn eq(s: &[char], t: &[char]) -> (r: bool)
    ensures
        r == (s@ == t@),
{
    if s.len() != t.len() {
        return false;
    }
    let mut i: usize = 0;
    while i < s.len()
        invariant
            i <= s@.len(),
            s@.len() == t@.len(),
            s@.take(i as int) == t@.take(i as int),
        decreases s@.len() - i,
    {
        if s[i] != t[i] {
            return false;
        }
        i += 1;
        assert(s@.take(i as int) == s@.take(i - 1).push(s@[i - 1]));
        assert(t@.take(i as int) == t@.take(i - 1).push(t@[i - 1]));
    }
    assert(s@.take(i as int) == s@);
    assert(t@.take(i as int) == t@);
    true
}

/// Whether two strings are equal.
pub fn str_eq(s: &str, t: &str) -> (r: bool)
    ensures
        r == (s@ == t@),
{
    let a = chars_of(s);
    same(a.as_slice(), t)
}

/// A fresh string with the same characters.
pub fn owned(s: &str) -> (r: String)
    ensures
        r@ == s@,
{
    s.to_string()
}

/// A fresh vector with the same characters.
pub fn to_vec(s: &[char]) -> (r: Vec<char>)
    ensures
        r@ == s@,
{
    let mut out: Vec<char> = Vec::new();
    let mut i: usize = 0;
    while i < s.len()
        invariant
            i <= s@.len(),
            out@ == s@.take(i as int),
        decreases s@.len() - i,
    {
        out.push(s[i]);
        i += 1;
        assert(s@.take(i as int) == s@.take(i - 1).push(s@[i - 1]));
    }
    assert(s@.take(s@.len() as int) == s@);
    out
}

// ---------------------------------------------------------------------------
// Lower case
// ---------------------------------------------------------------------------

/// ASCII lower case of a whole text.
pub open spec fn lowered(s: Seq<char>) -> Seq<char> {
    s.map_values(|c: char| lower_char(c))
}

pub fn to_lower(s: &[char]) -> (r: Vec<char>)
    ensures
        r@ == lowered(s@),
{
    let mut out: Vec<char> = Vec::new();
    let mut i: usize = 0;
    while i < s.len()
        invariant
            i <= s@.len(),
            out@ == lowered(s@).take(i as int),
        decreases s@.len() - i,
    {
        out.push(char_to_lower(s[i]));
        i += 1;
        assert(lowered(s@).take(i as int) == lowered(s@).take(i - 1).push(lowered(s@)[i - 1]));
    }
    assert(lowered(s@).take(s@.len() as int) == lowered(s@));
    out
}

/// Equality up to the case of ASCII letters.
pub open spec fn same_nocase(s: Seq<char>, t: Seq<char>) -> bool {
    lowered(s) == lowered(t)
}

pub fn eq_nocase(s: &[char], t: &[char]) -> (r: bool)
    ensures
        r == same_nocase(s@, t@),
{
    let a = to_lower(s);
    let b = to_lower(t);
    eq(a.as_slice(), b.as_slice())
}

// ---------------------------------------------------------------------------
// Trimming
// ---------------------------------------------------------------------------

/// `s` without its longest prefix of characters that satisfy `p`.
pub open spec fn trimmed_start(s: Seq<char>, p: spec_fn(char) -> bool) -> Seq<char>
    decreases s.len(),
{
    if s.len() > 0 && p(s[0]) {
        trimmed_start(s.drop_first(), p)
    } else {
        s
    }
}

/// `s` without its longest suffix of characters that satisfy `p`.
pub open spec fn trimmed_end(s: Seq<char>, p: spec_fn(char) -> bool) -> Seq<char>
    decreases s.len(),
{
    if s.len() > 0 && p(s.last()) {
        trimmed_end(s.drop_last(), p)
    } else {
        s
    }
}

/// `s` without white space at its ends.
pub open spec fn trimmed(s: Seq<char>) -> Seq<char> {
    trimmed_end(trimmed_start(s, |c: char| is_space(c)), |c: char| is_space(c))
}

/// `s` with every leading copy of `pat` taken off.
pub open spec fn stripped_starts(s: Seq<char>, pat: Seq<char>) -> Seq<char>
    decreases s.len(),
{
    if pat.len() > 0 && pat.is_prefix_of(s) {
        stripped_starts(s.skip(pat.len() as int), pat)
    } else {
        s
    }
}

pub fn trim<'a>(s: &'a [char]) -> (r: &'a [char])
    ensures
        r@ == trimmed(s@),
{
    let ghost p = |c: char| is_space(c);
    let mut i: usize = 0;
    assert(s@.skip(0) == s@);
    while i < s.len() && char_is_space(s[i])
        invariant
            i <= s@.len(),
            p == (|c: char| is_space(c)),
            trimmed_start(s@, p) == trimmed_start(s@.skip(i as int), p),
        decreases s@.len() - i,
    {
        assert(s@.skip(i as int).drop_first() == s@.skip(i + 1));
        i += 1;
    }
    let mut j: usize = s.len();
    assert(s@.subrange(i as int, j as int) == s@.skip(i as int));
    while j > i && char_is_space(s[j - 1])
        invariant
            i <= j <= s@.len(),
            p == (|c: char| is_space(c)),
            trimmed(s@) == trimmed_end(s@.subrange(i as int, j as int), p),
        decreases j,
    {
        assert(s@.subrange(i as int, j as int).drop_last() == s@.subrange(i as int, j - 1));
        j -= 1;
    }
    slice_subrange(s, i, j)
}

/// Trims a string, see [`trimmed`].
pub fn trim_str(s: &str) -> (r: Vec<char>)
    ensures
        r@ == trimmed(s@),
{
    let v = chars_of(s);
    to_vec(trim(v.as_slice()))
}

/// Whether a string holds nothing but white space.
pub fn is_blank(s: &str) -> (r: bool)
    ensures
        r == (trimmed(s@).len() == 0),
{
    let v = trim_str(s);
    v.len() == 0
}

/// Takes every leading `pat` off.
pub fn strip_starts<'a>(s: &'a [char], pat: &str) -> (r: &'a [char])
    requires
        pat@.len() > 0,
    ensures
        r@ == stripped_starts(s@, pat@),
{
    let p = chars_of(pat);
    let mut cur: &'a [char] = s;
    while starts_with(cur, p.as_slice())
        invariant
            p@ == pat@,
            pat@.len() > 0,
            stripped_starts(s@, pat@) == stripped_starts(cur@, pat@),
        decreases cur@.len(),
    {
        let ghost before = cur@;
        cur = slice_subrange(cur, p.len(), cur.len());
        assert(cur@ == before.skip(pat@.len() as int));
    }
    cur
}

/// Takes every trailing `c` off.
pub fn trim_end_char<'a>(s: &'a [char], c: char) -> (r: &'a [char])
    ensures
        r@ == trimmed_end(s@, |x: char| x == c),
{
    let mut j: usize = s.len();
    assert(s@.take(j as int) == s@);
    while j > 0 && s[j - 1] == c
        invariant
            j <= s@.len(),
            trimmed_end(s@, |x: char| x == c) == trimmed_end(
                s@.take(j as int),
                |x: char| x == c,
            ),
        decreases j,
    {
        assert(s@.take(j as int).drop_last() == s@.take(j - 1));
        j -= 1;
    }
    assert(s@.subrange(0, j as int) == s@.take(j as int));
    slice_subrange(s, 0, j)
}

/// Takes every leading `c` off.
pub fn trim_start_char<'a>(s: &'a [char], c: char) -> (r: &'a [char])
    ensures
        r@ == trimmed_start(s@, |x: char| x == c),
{
    let mut i: usize = 0;
    assert(s@.skip(0) == s@);
    while i < s.len() && s[i] == c
        invariant
            i <= s@.len(),
            trimmed_start(s@, |x: char| x == c) == trimmed_start(
                s@.skip(i as int),
                |x: char| x == c,
            ),
        decreases s@.len() - i,
    {
        assert(s@.skip(i as int).drop_first() == s@.skip(i + 1));
        i += 1;
    }
    assert(s@.subrange(i as int, s@.len() as int) == s@.skip(i as int));
    slice_subrange(s, i, s.len())
}

// ---------------------------------------------------------------------------
// Prefixes, suffixes, searching
// ---------------------------------------------------------------------------

pub fn starts_with(s: &[char], p: &[char]) -> (r: bool)
    ensures
        r == p@.is_prefix_of(s@),
{
    if p.len() > s.len() {
        return false;
    }
    let head = slice_subrange(s, 0, p.len());
    eq(head, p)
}

/// Whether the text starts with the given string.
pub fn has_prefix(s: &[char], p: &str) -> (r: bool)
    ensures
        r == p@.is_prefix_of(s@),
{
    let q = chars_of(p);
    starts_with(s, q.as_slice())
}

/// Whether the text ends with the given string.
pub fn has_suffix(s: &[char], p: &str) -> (r: bool)
    ensures
        r == p@.is_suffix_of(s@),
{
    let q = chars_of(p);
    if q.len() > s.len() {
        return false;
    }
    let tail = slice_subrange(s, s.len() - q.len(), s.len());
    eq(tail, q.as_slice())
}

/// The index of the first `c` in `s`; `s.len()` when there is none.
pub open spec fn index_of(s: Seq<char>, c: char) -> nat
    decreases s.len(),
{
    if s.len() == 0 {
        0
    } else if s[0] == c {
        0
    } else {
        1 + index_of(s.drop_first(), c)
    }
}

pub proof fn lemma_index_of(s: Seq<char>, c: char)
    ensures
        index_of(s, c) <= s.len(),
        forall|i: int| 0 <= i < index_of(s, c) ==> s[i] != c,
        index_of(s, c) < s.len() ==> s[index_of(s, c) as int] == c,
        index_of(s, c) < s.len() <==> s.contains(c),
    decreases s.len(),
{
    if s.len() > 0 {
        lemma_index_of(s.drop_first(), c);
        let k = index_of(s.drop_first(), c);
        if s[0] != c {
            assert forall|i: int| 0 <= i < index_of(s, c) implies s[i] != c by {
                if i > 0 {
                    assert(s.drop_first()[i - 1] == s[i]);
                }
            }
            if s.contains(c) {
                let j = choose|j: int| 0 <= j < s.len() && s[j] == c;
                assert(s.drop_first()[j - 1] == c);
            }
        }
    }
}

/// The first index of a character is where every earlier one differs.
pub proof fn lemma_index_of_is(s: Seq<char>, c: char, k: nat)
    requires
        k <= s.len(),
        forall|i: int| 0 <= i < k ==> s[i] != c,
        k < s.len() ==> s[k as int] == c,
    ensures
        index_of(s, c) == k,
{
    lemma_index_of(s, c);
    if index_of(s, c) < k {
        assert(s[index_of(s, c) as int] == c);
    }
}

pub fn find_char(s: &[char], c: char) -> (r: usize)
    ensures
        r == index_of(s@, c),
        r <= s@.len(),
{
    let mut i: usize = 0;
    while i < s.len() && s[i] != c
        invariant
            i <= s@.len(),
            forall|j: int| 0 <= j < i ==> s@[j] != c,
        decreases s@.len() - i,
    {
        i += 1;
    }
    proof {
        lemma_index_of_is(s@, c, i as nat);
    }
    i
}

pub fn contains_char(s: &[char], c: char) -> (r: bool)
    ensures
        r == s@.contains(c),
{
    proof {
        lemma_index_of(s@, c);
    }
    find_char(s, c) < s.len()
}

/// The index of the first occurrence of `pat` in `s`.
pub open spec fn first_match(s: Seq<char>, pat: Seq<char>) -> Option<nat>
    decreases s.len(),
{
    if pat.is_prefix_of(s) {
        Some(0)
    } else if s.len() == 0 {
        None
    } else {
        match first_match(s.drop_first(), pat) {
            Some(i) => Some(i + 1),
            None => None,
        }
    }
}

/// Whether `pat` occurs in `s`.
pub open spec fn occurs(s: Seq<char>, pat: Seq<char>) -> bool {
    first_match(s, pat) is Some
}

pub proof fn lemma_first_match(s: Seq<char>, pat: Seq<char>)
    ensures
        first_match(s, pat) matches Some(i) ==> {
            &&& i + pat.len() <= s.len()
            &&& pat.is_prefix_of(s.skip(i as int))
            &&& forall|j: int| 0 <= j < i ==> !pat.is_prefix_of(#[trigger] s.skip(j))
        },
        first_match(s, pat) is None ==> forall|j: int|
            0 <= j <= s.len() ==> !pat.is_prefix_of(#[trigger] s.skip(j)),
    decreases s.len(),
{
    assert(s.skip(0) == s);
    if !pat.is_prefix_of(s) && s.len() > 0 {
        lemma_first_match(s.drop_first(), pat);
        assert forall|j: int| 1 <= j <= s.len() implies #[trigger] s.skip(j)
            == s.drop_first().skip(j - 1) by {}
        match first_match(s.drop_first(), pat) {
            Some(i) => {
                assert(s.skip(i as int + 1) == s.drop_first().skip(i as int));
                assert forall|j: int| 0 <= j < i + 1 implies !pat.is_prefix_of(
                    #[trigger] s.skip(j),
                ) by {
                    if j > 0 {
                        assert(s.skip(j) == s.drop_first().skip(j - 1));
                    }
                }
            },
            None => {
                assert forall|j: int| 0 <= j <= s.len() implies !pat.is_prefix_of(
                    #[trigger] s.skip(j),
                ) by {
                    if j > 0 {
                        assert(s.skip(j) == s.drop_first().skip(j - 1));
                    }
                }
            },
        }
    }
}

pub proof fn lemma_first_match_is(s: Seq<char>, pat: Seq<char>, i: nat)
    requires
        i <= s.len(),
        pat.is_prefix_of(s.skip(i as int)),
        forall|j: int| 0 <= j < i ==> !pat.is_prefix_of(#[trigger] s.skip(j)),
    ensures
        first_match(s, pat) == Some(i),
{
    lemma_first_match(s, pat);
    match first_match(s, pat) {
        Some(k) => {
            if k < i {
                assert(!pat.is_prefix_of(s.skip(k as int)));
            }
            if k > i {
                assert(!pat.is_prefix_of(s.skip(i as int)));
            }
        },
        None => {
            assert(!pat.is_prefix_of(s.skip(i as int)));
        },
    }
}

pub fn find(s: &[char], pat: &[char]) -> (r: Option<usize>)
    ensures
        match (r, first_match(s@, pat@)) {
            (Some(i), Some(j)) => i == j && i + pat@.len() <= s@.len(),
            (None, None) => true,
            _ => false,
        },
{
    proof {
        lemma_first_match(s@, pat@);
    }
    if pat.len() > s.len() {
        assert(first_match(s@, pat@) is None);
        return None;
    }
    let mut i: usize = 0;
    while i <= s.len() - pat.len()
        invariant
            pat@.len() <= s@.len(),
            i <= s@.len() - pat@.len() + 1,
            forall|j: int| 0 <= j < i ==> !pat@.is_prefix_of(#[trigger] s@.skip(j)),
        decreases s@.len() - i,
    {
        let part = slice_subrange(s, i, s.len());
        assert(part@ == s@.skip(i as int));
        if starts_with(part, pat) {
            proof {
                lemma_first_match_is(s@, pat@, i as nat);
            }
            return Some(i);
        }
        i += 1;
    }
    None
}

/// Whether the given string occurs in the text.
pub fn contains_str(s: &[char], pat: &str) -> (r: bool)
    ensures
        r == occurs(s@, pat@),
{
    let p = chars_of(pat);
    find(s, p.as_slice()).is_some()
}

// ---------------------------------------------------------------------------
// Splitting and joining
// ---------------------------------------------------------------------------

/// The parts of `s` before and after the first occurrence of `pat`.
pub open spec fn cut(s: Seq<char>, pat: Seq<char>) -> Option<(Seq<char>, Seq<char>)> {
    match first_match(s, pat) {
        Some(i) => Some((s.take(i as int), s.skip(i as int + pat.len()))),
        None => None,
    }
}

/// The parts of `s` before and after the first `c`.
pub open spec fn cut_char(s: Seq<char>, c: char) -> Option<(Seq<char>, Seq<char>)> {
    let i = index_of(s, c);
    if i < s.len() {
        Some((s.take(i as int), s.skip(i as int + 1)))
    } else {
        None
    }
}

/// The pieces of `s` between occurrences of `sep`: one more than there are separators.
pub open spec fn pieces(s: Seq<char>, sep: char) -> Seq<Seq<char>>
    decreases s.len(),
{
    let i = index_of(s, sep);
    if i < s.len() {
        seq![s.take(i as int)] + pieces(s.skip(i as int + 1), sep)
    } else {
        seq![s]
    }
}

/// The members of a list that hold at least one character.
pub open spec fn nonempty(v: Seq<Seq<char>>) -> Seq<Seq<char>>
    decreases v.len(),
{
    if v.len() == 0 {
        Seq::empty()
    } else if v[0].len() == 0 {
        nonempty(v.drop_first())
    } else {
        seq![v[0]] + nonempty(v.drop_first())
    }
}

/// The members of a list with `sep` between neighbours.
pub open spec fn joined(v: Seq<Seq<char>>, sep: Seq<char>) -> Seq<char>
    decreases v.len(),
{
    if v.len() == 0 {
        Seq::empty()
    } else if v.len() == 1 {
        v[0]
    } else {
        joined(v.drop_last(), sep) + sep + v.last()
    }
}

/// `s` with every `from` replaced by `to`.
pub open spec fn replaced(s: Seq<char>, from: char, to: char) -> Seq<char> {
    s.map_values(|c: char| if c == from { to } else { c })
}

pub fn split_once_char<'a>(s: &'a [char], c: char) -> (r: Option<(&'a [char], &'a [char])>)
    ensures
        match (r, cut_char(s@, c)) {
            (Some(p), Some(q)) => p.0@ == q.0 && p.1@ == q.1,
            (None, None) => true,
            _ => false,
        },
{
    let i = find_char(s, c);
    if i < s.len() {
        let a = slice_subrange(s, 0, i);
        let b = slice_subrange(s, i + 1, s.len());
        assert(a@ == s@.take(i as int));
        assert(b@ == s@.skip(i + 1));
        Some((a, b))
    } else {
        None
    }
}

pub fn split_once<'a>(s: &'a [char], pat: &str) -> (r: Option<(&'a [char], &'a [char])>)
    ensures
        match (r, cut(s@, pat@)) {
            (Some(p), Some(q)) => p.0@ == q.0 && p.1@ == q.1,
            (None, None) => true,
            _ => false,
        },
{
    let p = chars_of(pat);
    let n: usize = s.len();
    match find(s, p.as_slice()) {
        Some(i) => {
            let a = slice_subrange(s, 0, i);
            let b = slice_subrange(s, i + p.len(), n);
            assert(a@ == s@.take(i as int));
            assert(b@ == s@.skip(i + pat@.len()));
            Some((a, b))
        },
        None => None,
    }
}

pub fn split(s: &[char], sep: char) -> (r: Vec<Vec<char>>)
    ensures
        views(r@) == pieces(s@, sep),
{
    let mut out: Vec<Vec<char>> = Vec::new();
    let mut start: usize = 0;
    assert(s@.skip(0) == s@);
    assert(views(out@) + pieces(s@, sep) == pieces(s@, sep));
    loop
        invariant
            start <= s@.len(),
            pieces(s@, sep) == views(out@) + pieces(s@.skip(start as int), sep),
        decreases s@.len() - start,
    {
        let rest = slice_subrange(s, start, s.len());
        assert(rest@ == s@.skip(start as int));
        let i = find_char(rest, sep);
        let part = slice_subrange(rest, 0, i);
        let ghost before = out@;
        assert(part@ == rest@.take(i as int));
        out.push(to_vec(part));
        assert(views(out@) == views(before).push(part@));
        if i < rest.len() {
            start = start + i + 1;
            assert(rest@.skip(i + 1) == s@.skip(start as int));
            assert(views(out@) + pieces(s@.skip(start as int), sep) == views(before) + pieces(
                rest@,
                sep,
            ));
        } else {
            assert(part@ == rest@);
            assert(views(out@) == views(before) + pieces(rest@, sep));
            return out;
        }
    }
}

/// Keeps the members that hold at least one character.
pub fn keep_nonempty(v: &Vec<Vec<char>>) -> (r: Vec<Vec<char>>)
    ensures
        views(r@) == nonempty(views(v@)),
{
    let mut out: Vec<Vec<char>> = Vec::new();
    let mut i: usize = 0;
    assert(views(v@).skip(0) == views(v@));
    assert(views(out@) + nonempty(views(v@)) == nonempty(views(v@)));
    while i < v.len()
        invariant
            i <= v@.len(),
            nonempty(views(v@)) == views(out@) + nonempty(views(v@).skip(i as int)),
        decreases v@.len() - i,
    {
        let ghost rest = views(v@).skip(i as int);
        assert(rest.drop_first() == views(v@).skip(i + 1));
        assert(rest[0] == v@[i as int]@);
        if v[i].len() > 0 {
            let ghost before = out@;
            out.push(to_vec(v[i].as_slice()));
            assert(views(out@) == views(before).push(rest[0]));
            assert(views(before) + (seq![rest[0]] + nonempty(rest.drop_first())) == views(out@)
                + nonempty(rest.drop_first()));
        }
        i += 1;
    }
    assert(views(v@).skip(i as int) == Seq::<Seq<char>>::empty());
    assert(views(out@) + Seq::<Seq<char>>::empty() == views(out@));
    out
}

pub fn join(v: &Vec<Vec<char>>, sep: &str) -> (r: Vec<char>)
    ensures
        r@ == joined(views(v@), sep@),
{
    let s = chars_of(sep);
    let mut out: Vec<char> = Vec::new();
    let mut i: usize = 0;
    assert(views(v@).take(0) == Seq::<Seq<char>>::empty());
    while i < v.len()
        invariant
            i <= v@.len(),
            s@ == sep@,
            out@ == joined(views(v@).take(i as int), sep@),
        decreases v@.len() - i,
    {
        let ghost all = views(v@);
        assert(all.take(i + 1).drop_last() == all.take(i as int));
        assert(all.take(i + 1).last() == v@[i as int]@);
        if i > 0 {
            push_all(&mut out, s.as_slice());
        }
        push_all(&mut out, v[i].as_slice());
        i += 1;
    }
    assert(views(v@).take(i as int) == views(v@));
    out
}

/// Joins strings, see [`joined`].
pub fn join_strings(v: &Vec<String>, sep: &str) -> (r: String)
    ensures
        r@ == joined(texts(v@), sep@),
{
    let mut out = String::new();
    let mut i: usize = 0;
    assert(texts(v@).take(0) == Seq::<Seq<char>>::empty());
    while i < v.len()
        invariant
            i <= v@.len(),
            out@ == joined(texts(v@).take(i as int), sep@),
        decreases v@.len() - i,
    {
        let ghost all = texts(v@);
        assert(all.take(i + 1).drop_last() == all.take(i as int));
        assert(all.take(i + 1).last() == v@[i as int]@);
        if i > 0 {
            out.append(sep);
        }
        out.append(v[i].as_str());
        i += 1;
    }
    assert(texts(v@).take(i as int) == texts(v@));
    out
}

/// Appends characters to a vector.
pub fn push_all(v: &mut Vec<char>, s: &[char])
    ensures
        final(v)@ == old(v)@ + s@,
{
    let ghost v0 = v@;
    let mut i: usize = 0;
    assert(v0 + s@.take(0) == v0);
    while i < s.len()
        invariant
            i <= s@.len(),
            v@ == v0 + s@.take(i as int),
        decreases s@.len() - i,
    {
        v.push(s[i]);
        i += 1;
        assert(v0 + s@.take(i as int) == (v0 + s@.take(i - 1)).push(s@[i - 1]));
    }
    assert(s@.take(i as int) == s@);
}

pub fn replace_char(s: &[char], from: char, to: char) -> (r: Vec<char>)
    ensures
        r@ == replaced(s@, from, to),
{
    let mut out: Vec<char> = Vec::new();
    let mut i: usize = 0;
    while i < s.len()
        invariant
            i <= s@.len(),
            out@ == replaced(s@, from, to).take(i as int),
        decreases s@.len() - i,
    {
        let c = s[i];
        out.push(if c == from { to } else { c });
        i += 1;
        assert(replaced(s@, from, to).take(i as int) == replaced(s@, from, to).take(i - 1).push(
            replaced(s@, from, to)[i - 1],
        ));
    }
    assert(replaced(s@, from, to).take(i as int) == replaced(s@, from, to));
    out
}

// ---------------------------------------------------------------------------
// Numbers
// ---------------------------------------------------------------------------

/// The character of a digit.
pub open spec fn digit_char(d: int) -> char {
    ((48 + d) as u8) as char
}

/// A number in decimal notation.
pub open spec fn decimal_text(n: nat) -> Seq<char>
    decreases n,
{
    if n < 10 {
        seq![digit_char(n as int)]
    } else {
        decimal_text(n / 10).push(digit_char((n % 10) as int))
    }
}

/// The number that a row of decimal digits stands for.
pub open spec fn digits_value(s: Seq<char>) -> nat
    decreases s.len(),
{
    if s.len() == 0 {
        0
    } else {
        digits_value(s.drop_last()) * 10 + (s.last() as u8 - 48) as nat
    }
}

pub open spec fn all_digits(s: Seq<char>) -> bool {
    forall|i: int| 0 <= i < s.len() ==> is_digit(#[trigger] s[i])
}

/// A number in decimal notation, see [`decimal_text`].
pub fn decimal(n: u64) -> (r: String)
    ensures
        r@ == decimal_text(n as nat),
{
    let v = decimal_chars(n);
    string_of(v.as_slice())
}

fn decimal_chars(n: u64) -> (r: Vec<char>)
    ensures
        r@ == decimal_text(n as nat),
    decreases n,
{
    let c: char = (48 + (n % 10) as u8) as char;
    if n < 10 {
        let mut v: Vec<char> = Vec::new();
        v.push(c);
        assert(v@ == decimal_text(n as nat));
        v
    } else {
        let mut v = decimal_chars(n / 10);
        v.push(c);
        v
    }
}

/// A number in decimal digits, with a minus sign where it is negative.
pub open spec fn signed_text(n: int) -> Seq<char> {
    if n < 0 {
        seq!['-'] + decimal_text((-n) as nat)
    } else {
        decimal_text(n as nat)
    }
}

/// Writes a number in decimal digits, see [`signed_text`].
pub fn signed(n: i64) -> (r: String)
    ensures
        r@ == signed_text(n as int),
{
    if n < 0 {
        let size: u64 = (-(n as i128)) as u64;
        let digits = decimal(size);
        proof {
            reveal_strlit("-");
            assert("-"@ =~= seq!['-']);
        }
        owned("-").concat(digits.as_str())
    } else {
        decimal(n as u64)
    }
}

/// The number in a text: an optional `+`, then decimal digits that fit in 32 bits.
pub open spec fn u32_of(s: Seq<char>) -> Option<u32> {
    let d = if s.len() > 1 && s[0] == '+' {
        s.drop_first()
    } else {
        s
    };
    digits_u32(d)
}

/// The number that a text of decimal digits stands for, where it fits in 32 bits.
pub open spec fn digits_u32(d: Seq<char>) -> Option<u32> {
    if d.len() > 0 && all_digits(d) && digits_value(d) <= u32::MAX {
        Some(digits_value(d) as u32)
    } else {
        None
    }
}

proof fn lemma_digits_grow(s: Seq<char>, k: int)
    requires
        0 <= k <= s.len(),
        all_digits(s),
    ensures
        digits_value(s.take(k)) <= digits_value(s),
    decreases s.len() - k,
{
    if k < s.len() {
        lemma_digits_grow(s, k + 1);
        assert(s.take(k + 1).drop_last() == s.take(k));
        assert(is_digit(s[k]));
    } else {
        assert(s.take(k) == s);
    }
}

/// Reads a 32 bit number, see [`u32_of`].
pub fn parse_u32(s: &[char]) -> (r: Option<u32>)
    ensures
        r == u32_of(s@),
{
    if s.len() > 1 && s[0] == '+' {
        let t = slice_subrange(s, 1, s.len());
        assert(t@ == s@.drop_first());
        read_digits(t)
    } else {
        read_digits(s)
    }
}

fn read_digits(d: &[char]) -> (r: Option<u32>)
    ensures
        r == digits_u32(d@),
{
    if d.len() == 0 {
        return None;
    }
    let mut i: usize = 0;
    while i < d.len()
        invariant
            i <= d@.len(),
            forall|j: int| 0 <= j < i ==> is_digit(#[trigger] d@[j]),
        decreases d@.len() - i,
    {
        let c = d[i];
        if !('0' <= c && c <= '9') {
            assert(!is_digit(d@[i as int]));
            return None;
        }
        i += 1;
    }
    let mut value: u64 = 0;
    let mut i: usize = 0;
    while i < d.len()
        invariant
            i <= d@.len(),
            all_digits(d@),
            value == digits_value(d@.take(i as int)),
            value <= u32::MAX,
        decreases d@.len() - i,
    {
        assert(d@.take(i + 1).drop_last() == d@.take(i as int));
        assert(is_digit(d@[i as int]));
        value = value * 10 + (d[i] as u8 - 48) as u64;
        i += 1;
        if value > 0xffff_ffff {
            proof {
                lemma_digits_grow(d@, i as int);
            }
            return None;
        }
    }
    assert(d@.take(i as int) == d@);
    Some(value as u32)
}

/// The number in a text: an optional `+`, then decimal digits that fit in 64 bits.
pub open spec fn u64_of(s: Seq<char>) -> Option<u64> {
    let d = if s.len() > 1 && s[0] == '+' {
        s.drop_first()
    } else {
        s
    };
    digits_u64(d)
}

/// The number that a text of decimal digits stands for, where it fits in 64 bits.
pub open spec fn digits_u64(d: Seq<char>) -> Option<u64> {
    if d.len() > 0 && all_digits(d) && digits_value(d) <= u64::MAX {
        Some(digits_value(d) as u64)
    } else {
        None
    }
}

/// Reads a 64 bit number, see [`u64_of`].
pub fn parse_u64(s: &[char]) -> (r: Option<u64>)
    ensures
        r == u64_of(s@),
{
    if s.len() > 1 && s[0] == '+' {
        let t = slice_subrange(s, 1, s.len());
        assert(t@ == s@.drop_first());
        read_digits_u64(t)
    } else {
        read_digits_u64(s)
    }
}

fn read_digits_u64(d: &[char]) -> (r: Option<u64>)
    ensures
        r == digits_u64(d@),
{
    if d.len() == 0 {
        return None;
    }
    let mut i: usize = 0;
    while i < d.len()
        invariant
            i <= d@.len(),
            forall|j: int| 0 <= j < i ==> is_digit(#[trigger] d@[j]),
        decreases d@.len() - i,
    {
        let c = d[i];
        if !('0' <= c && c <= '9') {
            assert(!is_digit(d@[i as int]));
            return None;
        }
        i += 1;
    }
    let mut value: u64 = 0;
    let mut i: usize = 0;
    while i < d.len()
        invariant
            i <= d@.len(),
            all_digits(d@),
            value == digits_value(d@.take(i as int)),
        decreases d@.len() - i,
    {
        assert(d@.take(i + 1).drop_last() == d@.take(i as int));
        assert(is_digit(d@[i as int]));
        let digit: u64 = (d[i] as u8 - 48) as u64;
        if value > 1844674407370955161 || (value == 1844674407370955161 && digit > 5) {
            proof {
                lemma_digits_grow(d@, i + 1);
            }
            return None;
        }
        value = value * 10 + digit;
        i += 1;
    }
    assert(d@.take(i as int) == d@);
    Some(value)
}

/// The value of a decimal text is the number it was made from.
pub proof fn decimal_reads_back(n: nat)
    ensures
        digits_value(decimal_text(n)) == n,
        all_digits(decimal_text(n)),
        decimal_text(n).len() > 0,
    decreases n,
{
    let s = decimal_text(n);
    if n < 10 {
        assert(s.drop_last() == Seq::<char>::empty());
        assert(digits_value(s.drop_last()) == 0);
        assert(s.last() as u8 == 48 + n);
    } else {
        decimal_reads_back(n / 10);
        assert(s.drop_last() == decimal_text(n / 10));
        assert(s.last() as u8 == 48 + n % 10);
    }
}

// ---------------------------------------------------------------------------
// Facts about the operations above
// ---------------------------------------------------------------------------

/// Texts that start differently are no prefix of one another.
pub proof fn lemma_not_prefix(p: Seq<char>, s: Seq<char>)
    requires
        p.len() > 0,
        s.len() > 0,
        p[0] != s[0],
    ensures
        !p.is_prefix_of(s),
{
    if p.is_prefix_of(s) {
        assert(p[0] == s.subrange(0, p.len() as int)[0]);
    }
}

/// A text with no white space at its ends is its own trimmed form.
pub proof fn lemma_trimmed_id(s: Seq<char>)
    requires
        s.len() > 0 ==> !is_space(s[0]) && !is_space(s.last()),
    ensures
        trimmed(s) == s,
{
}

/// White space around a text that has none at its ends is all that trimming takes off.
pub proof fn lemma_trimmed_around(before: Seq<char>, s: Seq<char>, after: Seq<char>)
    requires
        s.len() > 0,
        !is_space(s[0]),
        !is_space(s.last()),
        forall|i: int| 0 <= i < before.len() ==> is_space(#[trigger] before[i]),
        forall|i: int| 0 <= i < after.len() ==> is_space(#[trigger] after[i]),
    ensures
        trimmed(before + s + after) == s,
    decreases before.len() + after.len(),
{
    let p = |c: char| is_space(c);
    let all = before + s + after;
    if before.len() > 0 {
        let less = before.drop_first();
        assert(all[0] == before[0]);
        assert(all.drop_first() =~= less + s + after);
        assert forall|i: int| 0 <= i < less.len() implies is_space(#[trigger] less[i]) by {
            assert(less[i] == before[i + 1]);
        }
        lemma_trimmed_around(less, s, after);
    } else {
        assert(all =~= s + after);
        assert(all[0] == s[0]);
        assert(trimmed_start(all, p) == all);
        if after.len() > 0 {
            let less = after.drop_last();
            assert(all.last() == after.last());
            assert(all.drop_last() =~= before + s + less);
            assert forall|i: int| 0 <= i < less.len() implies is_space(#[trigger] less[i]) by {
                assert(less[i] == after[i]);
            }
            lemma_trimmed_around(before, s, less);
            assert((before + s + less)[0] == s[0]);
            assert(trimmed_start(all.drop_last(), p) == all.drop_last());
            assert(after.last() == after[after.len() - 1]);
        } else {
            assert(all =~= s);
        }
    }
}

pub proof fn lemma_trimmed_start(s: Seq<char>, p: spec_fn(char) -> bool)
    ensures
        trimmed_start(s, p).len() <= s.len(),
        trimmed_start(s, p) == s.skip(s.len() - trimmed_start(s, p).len()),
        trimmed_start(s, p).len() > 0 ==> !p(trimmed_start(s, p)[0]),
    decreases s.len(),
{
    if s.len() > 0 && p(s[0]) {
        lemma_trimmed_start(s.drop_first(), p);
        assert(s.drop_first().skip(s.len() - 1 - trimmed_start(s, p).len()) == s.skip(
            s.len() - trimmed_start(s, p).len(),
        ));
    } else {
        assert(s.skip(0) == s);
    }
}

pub proof fn lemma_trimmed_end(s: Seq<char>, p: spec_fn(char) -> bool)
    ensures
        trimmed_end(s, p).len() <= s.len(),
        trimmed_end(s, p) == s.take(trimmed_end(s, p).len() as int),
        trimmed_end(s, p).len() > 0 ==> !p(trimmed_end(s, p).last()),
    decreases s.len(),
{
    if s.len() > 0 && p(s.last()) {
        lemma_trimmed_end(s.drop_last(), p);
        assert(s.drop_last().take(trimmed_end(s, p).len() as int) == s.take(
            trimmed_end(s, p).len() as int,
        ));
    } else {
        assert(s.take(s.len() as int) == s);
    }
}

/// What is left after taking leading copies off is a suffix with no further copy.
pub proof fn lemma_stripped_starts(s: Seq<char>, pat: Seq<char>)
    requires
        pat.len() > 0,
    ensures
        stripped_starts(s, pat).len() <= s.len(),
        stripped_starts(s, pat) == s.skip(s.len() - stripped_starts(s, pat).len()),
        !pat.is_prefix_of(stripped_starts(s, pat)),
    decreases s.len(),
{
    if pat.is_prefix_of(s) {
        let t = s.skip(pat.len() as int);
        lemma_stripped_starts(t, pat);
        let n = stripped_starts(s, pat).len();
        assert(t.skip(t.len() - n) == s.skip(s.len() - n));
    } else {
        assert(s.skip(0) == s);
    }
}

/// Lower case is idempotent.
pub proof fn lemma_lowered_idempotent(s: Seq<char>)
    ensures
        lowered(lowered(s)) == lowered(s),
        lowered(s).len() == s.len(),
{
    assert(lowered(lowered(s)) =~= lowered(s));
}

/// Without the separator there is one piece.
pub proof fn lemma_pieces_one(s: Seq<char>, sep: char)
    requires
        !s.contains(sep),
    ensures
        pieces(s, sep) == seq![s],
{
    lemma_index_of(s, sep);
}

/// A first piece without separator comes off the front.
pub proof fn lemma_pieces_front(a: Seq<char>, sep: char, b: Seq<char>)
    requires
        !a.contains(sep),
    ensures
        pieces(a.push(sep) + b, sep) == seq![a] + pieces(b, sep),
{
    let s = a.push(sep) + b;
    assert forall|i: int| 0 <= i < a.len() implies s[i] != sep by {
        assert(s[i] == a[i]);
        assert(a.contains(a[i]));
    }
    assert(s[a.len() as int] == sep);
    lemma_index_of_is(s, sep, a.len());
    assert(s.take(a.len() as int) == a);
    assert(s.skip(a.len() as int + 1) == b);
}

/// A last piece without separator comes off the end.
pub proof fn lemma_pieces_back(a: Seq<char>, sep: char, b: Seq<char>)
    requires
        !b.contains(sep),
    ensures
        pieces(a.push(sep) + b, sep) == pieces(a, sep).push(b),
    decreases a.len(),
{
    lemma_index_of(a, sep);
    let i = index_of(a, sep);
    if i < a.len() {
        let h = a.take(i as int);
        let t = a.skip(i as int + 1);
        assert(a == h.push(sep) + t);
        assert(!h.contains(sep)) by {
            if h.contains(sep) {
                let j = choose|j: int| 0 <= j < h.len() && h[j] == sep;
                assert(a[j] == sep);
            }
        }
        lemma_pieces_back(t, sep, b);
        assert(a.push(sep) + b == h.push(sep) + (t.push(sep) + b));
        lemma_pieces_front(h, sep, t.push(sep) + b);
        assert(seq![h] + pieces(t, sep).push(b) == (seq![h] + pieces(t, sep)).push(b));
    } else {
        lemma_pieces_front(a, sep, b);
        lemma_pieces_one(b, sep);
        lemma_pieces_one(a, sep);
        assert(seq![a] + seq![b] == seq![a].push(b));
    }
}

/// No piece holds the separator, and pieces are made of the text's characters.
pub proof fn lemma_pieces_free(s: Seq<char>, sep: char)
    ensures
        pieces(s, sep).len() > 0,
        forall|k: int, j: int|
            0 <= k < pieces(s, sep).len() && 0 <= j < pieces(s, sep)[k].len() ==> {
                &&& #[trigger] pieces(s, sep)[k][j] != sep
                &&& s.contains(pieces(s, sep)[k][j])
            },
    decreases s.len(),
{
    lemma_index_of(s, sep);
    let i = index_of(s, sep);
    let v = pieces(s, sep);
    if i < s.len() {
        let t = s.skip(i as int + 1);
        lemma_pieces_free(t, sep);
        assert forall|k: int, j: int| 0 <= k < v.len() && 0 <= j < v[k].len() implies {
            &&& #[trigger] v[k][j] != sep
            &&& s.contains(v[k][j])
        } by {
            if k == 0 {
                assert(v[k][j] == s[j]);
            } else {
                assert(v[k] == pieces(t, sep)[k - 1]);
                assert(t.contains(v[k][j]));
                let m = choose|m: int| 0 <= m < t.len() && t[m] == v[k][j];
                assert(s[m + i + 1] == v[k][j]);
            }
        }
    } else {
        assert forall|k: int, j: int| 0 <= k < v.len() && 0 <= j < v[k].len() implies {
            &&& #[trigger] v[k][j] != sep
            &&& s.contains(v[k][j])
        } by {
            assert(v[k] == s);
        }
    }
}

/// Every member of the kept list is a member of the full one.
pub proof fn lemma_nonempty_members(v: Seq<Seq<char>>)
    ensures
        forall|k: int|
            0 <= k < nonempty(v).len() ==> {
                &&& v.contains(#[trigger] nonempty(v)[k])
                &&& nonempty(v)[k].len() > 0
            },
    decreases v.len(),
{
    if v.len() > 0 {
        let t = v.drop_first();
        lemma_nonempty_members(t);
        assert forall|k: int| 0 <= k < nonempty(v).len() implies {
            &&& v.contains(#[trigger] nonempty(v)[k])
            &&& nonempty(v)[k].len() > 0
        } by {
            let x = nonempty(v)[k];
            if v[0].len() == 0 {
                assert(x == nonempty(t)[k]);
                assert(t.contains(x));
                let m = choose|m: int| 0 <= m < t.len() && t[m] == x;
                assert(v[m + 1] == x);
            } else if k > 0 {
                assert(x == nonempty(t)[k - 1]);
                assert(t.contains(x));
                let m = choose|m: int| 0 <= m < t.len() && t[m] == x;
                assert(v[m + 1] == x);
            } else {
                assert(v[0] == x);
            }
        }
    }
}

/// A list whose members all hold characters is kept whole.
pub proof fn lemma_nonempty_all(v: Seq<Seq<char>>)
    requires
        forall|k: int| 0 <= k < v.len() ==> (#[trigger] v[k]).len() > 0,
    ensures
        nonempty(v) == v,
    decreases v.len(),
{
    if v.len() > 0 {
        lemma_nonempty_all(v.drop_first());
        assert(v == seq![v[0]] + v.drop_first());
    }
}

/// Splitting a join of separator-free members gives them back.
pub proof fn lemma_pieces_joined(v: Seq<Seq<char>>, sep: char)
    requires
        v.len() > 0,
        forall|k: int| 0 <= k < v.len() ==> !(#[trigger] v[k]).contains(sep),
    ensures
        pieces(joined(v, seq![sep]), sep) == v,
    decreases v.len(),
{
    if v.len() == 1 {
        lemma_pieces_one(v[0], sep);
        assert(v == seq![v[0]]);
    } else {
        lemma_pieces_joined(v.drop_last(), sep);
        let a = joined(v.drop_last(), seq![sep]);
        lemma_pieces_back(a, sep, v.last());
        assert(a + seq![sep] + v.last() == a.push(sep) + v.last());
        assert(v.drop_last().push(v.last()) == v);
    }
}

/// A join is made of the members' characters and the separator.
pub proof fn lemma_joined_chars(v: Seq<Seq<char>>, sep: Seq<char>, j: int)
    requires
        0 <= j < joined(v, sep).len(),
    ensures
        sep.contains(joined(v, sep)[j]) || exists|k: int|
            0 <= k < v.len() && (#[trigger] v[k]).contains(joined(v, sep)[j]),
    decreases v.len(),
{
    let c = joined(v, sep)[j];
    if v.len() == 1 {
        assert(v[0].contains(c));
    } else {
        let a = joined(v.drop_last(), sep);
        if j < a.len() {
            lemma_joined_chars(v.drop_last(), sep, j);
            assert(c == a[j]);
            if !sep.contains(c) {
                let k = choose|k: int|
                    0 <= k < v.drop_last().len() && (#[trigger] v.drop_last()[k]).contains(c);
                assert(v[k].contains(c));
            }
        } else if j < a.len() + sep.len() {
            assert(c == sep[j - a.len()]);
        } else {
            assert(c == v.last()[j - a.len() - sep.len()]);
            assert(v[v.len() - 1].contains(c));
        }
    }
}

/// Trimming takes white space off both ends, all of it, and nothing else.
pub proof fn trimming_takes_only_white_space(s: Seq<char>) -> (ends: (Seq<char>, Seq<char>))
    ensures
        s == ends.0 + trimmed(s) + ends.1,
        forall|i: int| 0 <= i < ends.0.len() ==> is_space(#[trigger] ends.0[i]),
        forall|i: int| 0 <= i < ends.1.len() ==> is_space(#[trigger] ends.1[i]),
        trimmed(s).len() > 0 ==> !is_space(trimmed(s)[0]) && !is_space(trimmed(s).last()),
{
    let p = |c: char| is_space(c);
    let t = trimmed_start(s, p);
    lemma_trimmed_start(s, p);
    lemma_trimmed_end(t, p);
    lemma_start_taken(s, p);
    lemma_end_taken(t, p);
    let a = s.take(s.len() - t.len());
    let b = t.skip(trimmed(s).len() as int);
    assert(s =~= a + trimmed(s) + b);
    (a, b)
}

proof fn lemma_start_taken(s: Seq<char>, p: spec_fn(char) -> bool)
    ensures
        forall|i: int| 0 <= i < s.len() - trimmed_start(s, p).len() ==> p(#[trigger] s[i]),
    decreases s.len(),
{
    if s.len() > 0 && p(s[0]) {
        let t = s.drop_first();
        lemma_start_taken(t, p);
        assert forall|i: int| 0 <= i < s.len() - trimmed_start(s, p).len() implies p(
            #[trigger] s[i],
        ) by {
            if i > 0 {
                assert(s[i] == t[i - 1]);
            }
        }
    }
}

proof fn lemma_end_taken(s: Seq<char>, p: spec_fn(char) -> bool)
    ensures
        forall|i: int| trimmed_end(s, p).len() <= i < s.len() ==> p(#[trigger] s[i]),
    decreases s.len(),
{
    if s.len() > 0 && p(s.last()) {
        let t = s.drop_last();
        lemma_end_taken(t, p);
        assert forall|i: int| trimmed_end(s, p).len() <= i < s.len() implies p(#[trigger] s[i]) by {
            if i < s.len() - 1 {
                assert(s[i] == t[i]);
            }
        }
    }
}

/// The pieces of a text give it back when they are joined, and none holds the separator.
pub proof fn pieces_join_again(s: Seq<char>, sep: char)
    ensures
        joined(pieces(s, sep), seq![sep]) == s,
        forall|k: int| 0 <= k < pieces(s, sep).len() ==> !(#[trigger] pieces(s, sep)[k]).contains(
            sep,
        ),
    decreases s.len(),
{
    lemma_index_of(s, sep);
    lemma_pieces_free(s, sep);
    let i = index_of(s, sep);
    let v = pieces(s, sep);
    assert forall|k: int| 0 <= k < v.len() implies !(#[trigger] v[k]).contains(sep) by {
        if v[k].contains(sep) {
            let j = choose|j: int| 0 <= j < v[k].len() && v[k][j] == sep;
            assert(v[k][j] != sep);
        }
    }
    if i < s.len() {
        let head = s.take(i as int);
        let tail = s.skip(i as int + 1);
        pieces_join_again(tail, sep);
        lemma_pieces_free(tail, sep);
        lemma_joined_front(head, pieces(tail, sep), seq![sep]);
        assert(s =~= head + seq![sep] + tail);
    }
}

/// A first member comes off the front of a join.
pub proof fn lemma_joined_front(head: Seq<char>, v: Seq<Seq<char>>, sep: Seq<char>)
    requires
        v.len() > 0,
    ensures
        joined(seq![head] + v, sep) == head + sep + joined(v, sep),
    decreases v.len(),
{
    let all = seq![head] + v;
    assert(all.last() == v.last());
    assert(all.drop_last() =~= seq![head] + v.drop_last());
    if v.len() == 1 {
        assert(all.drop_last() =~= seq![head]);
        assert(joined(all.drop_last(), sep) == head);
    } else {
        lemma_joined_front(head, v.drop_last(), sep);
        assert(joined(all, sep) =~= head + sep + joined(v, sep));
    }
}

/// Texts are equal up to case where they differ, if at all, in letters of the alphabet alone,
/// each being the same letter in the other case.
pub proof fn only_the_case_of_letters_is_ignored(s: Seq<char>, t: Seq<char>)
    ensures
        same_nocase(s, t) <==> s.len() == t.len() && forall|i: int|
            0 <= i < s.len() ==> (#[trigger] s[i] == t[i] || ('A' <= s[i] <= 'Z' && t[i] as int
                == s[i] as int + 32) || ('A' <= t[i] <= 'Z' && s[i] as int == t[i] as int + 32)),
{
    let a = lowered(s);
    let b = lowered(t);
    assert(a.len() == s.len() && b.len() == t.len());
    if a == b {
        assert forall|i: int| 0 <= i < s.len() implies (#[trigger] s[i] == t[i] || ('A' <= s[i]
            <= 'Z' && t[i] as int == s[i] as int + 32) || ('A' <= t[i] <= 'Z' && s[i] as int
            == t[i] as int + 32)) by {
            assert(a[i] == lower_char(s[i]));
            assert(b[i] == lower_char(t[i]));
        }
    }
    if s.len() == t.len() && forall|i: int|
        0 <= i < s.len() ==> (#[trigger] s[i] == t[i] || ('A' <= s[i] <= 'Z' && t[i] as int
            == s[i] as int + 32) || ('A' <= t[i] <= 'Z' && s[i] as int == t[i] as int + 32)) {
        assert forall|i: int| 0 <= i < a.len() implies a[i] == b[i] by {
            assert(s[i] == t[i] || ('A' <= s[i] <= 'Z' && t[i] as int == s[i] as int + 32) || ('A'
                <= t[i] <= 'Z' && s[i] as int == t[i] as int + 32));
        }
        assert(a =~= b);
    }
}

/// A number reads back from its decimal digits, with a plus sign in front or without; one that
/// does not fit is none.
pub proof fn numbers_read_back(n: nat)
    ensures
        n <= u32::MAX ==> u32_of(decimal_text(n)) == Some(n as u32),
        n <= u32::MAX ==> u32_of(seq!['+'] + decimal_text(n)) == Some(n as u32),
        n > u32::MAX ==> u32_of(decimal_text(n)) is None,
        n <= u64::MAX ==> u64_of(decimal_text(n)) == Some(n as u64),
        n <= u64::MAX ==> u64_of(seq!['+'] + decimal_text(n)) == Some(n as u64),
        n > u64::MAX ==> u64_of(decimal_text(n)) is None,
{
    decimal_reads_back(n);
    let d = decimal_text(n);
    assert(is_digit(d[0]));
    let p = seq!['+'] + d;
    assert(p.drop_first() =~= d);
}

/// A digit behind a number makes it ten times as much, and the digit more.
pub proof fn digits_have_their_value(s: Seq<char>, d: u8)
    requires
        d < 10,
    ensures
        u64_of(seq![((48 + d) as u8) as char]) == Some(d as u64),
        u64_of(s) is Some && 10 * u64_of(s)->0 + d <= u64::MAX ==> u64_of(
            s.push(((48 + d) as u8) as char),
        ) == Some((10 * u64_of(s)->0 + d) as u64),
        u32_of(seq![((48 + d) as u8) as char]) == Some(d as u32),
        u32_of(s) is Some && 10 * u32_of(s)->0 + d <= u32::MAX ==> u32_of(
            s.push(((48 + d) as u8) as char),
        ) == Some((10 * u32_of(s)->0 + d) as u32),
{
    let c = ((48 + d) as u8) as char;
    assert(c as u8 == 48 + d);
    let one = seq![c];
    assert(one.drop_last() =~= Seq::<char>::empty());
    assert(digits_value(one.drop_last()) == 0);
    assert(all_digits(one));
    let t = s.push(c);
    if u64_of(s) is Some || u32_of(s) is Some {
        if s.len() > 1 && s[0] == '+' {
            let a = s.drop_first();
            assert(t.drop_first() =~= a.push(c));
            assert(a.push(c).drop_last() =~= a);
        } else {
            assert(is_digit(s[0]));
            assert(t.drop_last() =~= s);
        }
    }
}

/// A number with a sign reads back: the sign says that it is negative, the digits how far it is
/// from 0.
pub proof fn signed_numbers_read_back(n: int)
    ensures
        n >= 0 ==> digits_value(signed_text(n)) == n && all_digits(signed_text(n)),
        n < 0 ==> signed_text(n)[0] == '-' && digits_value(signed_text(n).drop_first()) == -n
            && all_digits(signed_text(n).drop_first()),
{
    if n < 0 {
        decimal_reads_back((-n) as nat);
        assert(signed_text(n).drop_first() =~= decimal_text((-n) as nat));
    } else {
        decimal_reads_back(n as nat);
    }
}

/// What a text is cut at stands between the two parts, and nowhere in it before; a text that is
/// not cut does not have it.
pub proof fn texts_are_cut_at_the_first(s: Seq<char>, pat: Seq<char>, i: int)
    requires
        pat.len() > 0,
        0 <= i,
        i + pat.len() <= s.len(),
        s.subrange(i, i + pat.len()) == pat,
    ensures
        cut(s, pat) is Some,
        ({
            let (a, b) = cut(s, pat)->0;
            &&& s == a + pat + b
            &&& a.len() <= i
        }),
{
    lemma_first_match(s, pat);
    assert(s.skip(i).subrange(0, pat.len() as int) =~= pat);
    assert(pat.is_prefix_of(s.skip(i)));
    let k = first_match(s, pat)->0 as int;
    assert(s.skip(k).subrange(0, pat.len() as int) =~= pat);
    let (a, b) = cut(s, pat)->0;
    assert(s =~= a + pat + b) by {
        assert forall|j: int| k <= j < k + pat.len() implies s[j] == pat[j - k] by {
            assert(s.skip(k)[j - k] == pat[j - k]);
        }
    }
}

} // verus!
