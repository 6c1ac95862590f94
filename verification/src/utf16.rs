//! UTF-16 text.

use vstd::prelude::*;

verus! {

/// Whether a number is a Unicode scalar value.
pub open spec fn is_scalar(n: u32) -> bool {
    n <= 0xD7FF || 0xE000 <= n <= 0x10FFFF
}

/// `char::from_u32` of std gives the character with the number, where there is one.
pub assume_specification[ char::from_u32 ](n: u32) -> (r: Option<char>)
    ensures
        match r {
            Some(c) => is_scalar(n) && c as int == n as int,
            None => !is_scalar(n),
        },
;

pub open spec fn is_high(u: u16) -> bool {
    0xD800 <= u <= 0xDBFF
}

pub open spec fn is_low(u: u16) -> bool {
    0xDC00 <= u <= 0xDFFF
}

/// The units of one character: one, or two for characters beyond the basic plane.
pub open spec fn char_units(c: char) -> Seq<u16> {
    let n = c as int;
    if n < 0x10000 {
        seq![n as u16]
    } else {
        seq![
            (0xD800 + (n - 0x10000) / 0x400) as u16,
            (0xDC00 + (n - 0x10000) % 0x400) as u16,
        ]
    }
}

/// The units of a text.
pub open spec fn units_of(s: Seq<char>) -> Seq<u16>
    decreases s.len(),
{
    if s.len() == 0 {
        Seq::empty()
    } else {
        units_of(s.drop_last()) + char_units(s.last())
    }
}

/// The character that a pair of surrogates stands for.
pub open spec fn pair_char(h: u16, l: u16) -> char {
    (0x10000 + (h - 0xD800) * 0x400 + (l - 0xDC00)) as char
}

/// The text that units stand for; a unit that stands for nothing becomes U+FFFD.
pub open spec fn text_of(u: Seq<u16>) -> Seq<char>
    decreases u.len(),
{
    if u.len() == 0 {
        Seq::empty()
    } else if !is_high(u[0]) && !is_low(u[0]) {
        seq![u[0] as char] + text_of(u.drop_first())
    } else if is_high(u[0]) && u.len() > 1 && is_low(u[1]) {
        seq![pair_char(u[0], u[1])] + text_of(u.skip(2))
    } else {
        seq!['\u{FFFD}'] + text_of(u.drop_first())
    }
}

fn push_units(out: &mut Vec<u16>, c: char)
    ensures
        final(out)@ == old(out)@ + char_units(c),
{
    let n: u32 = c as u32;
    if n < 0x10000 {
        out.push(n as u16);
    } else {
        out.push((0xD800 + (n - 0x10000) / 0x400) as u16);
        out.push((0xDC00 + (n - 0x10000) % 0x400) as u16);
    }
    assert(out@ =~= old(out)@ + char_units(c));
}

/// The units of a text, see [`units_of`].
pub fn encode(s: &[char]) -> (r: Vec<u16>)
    ensures
        r@ == units_of(s@),
{
    let mut out: Vec<u16> = Vec::new();
    let mut i: usize = 0;
    assert(s@.take(0) =~= Seq::<char>::empty());
    while i < s.len()
        invariant
            i <= s@.len(),
            out@ == units_of(s@.take(i as int)),
        decreases s@.len() - i,
    {
        assert(s@.take(i + 1).drop_last() =~= s@.take(i as int));
        push_units(&mut out, s[i]);
        i += 1;
    }
    assert(s@.take(i as int) =~= s@);
    out
}

/// The text that units stand for, see [`text_of`].
pub fn decode_lossy(u: &[u16]) -> (r: Vec<char>)
    ensures
        r@ == text_of(u@),
{
    let mut out: Vec<char> = Vec::new();
    let mut i: usize = 0;
    assert(u@.skip(0) =~= u@);
    while i < u.len()
        invariant
            i <= u@.len(),
            text_of(u@) == out@ + text_of(u@.skip(i as int)),
        decreases u@.len() - i,
    {
        let ghost rest = u@.skip(i as int);
        let ghost before = out@;
        let a: u16 = u[i];
        let high = 0xD800 <= a && a <= 0xDBFF;
        let low = 0xDC00 <= a && a <= 0xDFFF;
        assert(rest.drop_first() =~= u@.skip(i + 1));
        if !high && !low {
            let c = match char::from_u32(a as u32) {
                Some(c) => c,
                None => '\u{FFFD}',
            };
            out.push(c);
            assert(before + (seq![c] + text_of(u@.skip(i + 1))) =~= out@ + text_of(
                u@.skip(i + 1),
            ));
            i += 1;
        } else if high && i + 1 < u.len() && 0xDC00 <= u[i + 1] && u[i + 1] <= 0xDFFF {
            let b: u16 = u[i + 1];
            let n: u32 = 0x10000 + (a as u32 - 0xD800) * 0x400 + (b as u32 - 0xDC00);
            let c = match char::from_u32(n) {
                Some(c) => c,
                None => '\u{FFFD}',
            };
            assert(c == pair_char(a, b));
            assert(rest.skip(2) =~= u@.skip(i + 2));
            out.push(c);
            assert(before + (seq![c] + text_of(u@.skip(i + 2))) =~= out@ + text_of(
                u@.skip(i + 2),
            ));
            i += 2;
        } else {
            out.push('\u{FFFD}');
            assert(before + (seq!['\u{FFFD}'] + text_of(u@.skip(i + 1))) =~= out@ + text_of(
                u@.skip(i + 1),
            ));
            i += 1;
        }
    }
    assert(u@.skip(i as int) =~= Seq::<u16>::empty());
    assert(out@ + Seq::<char>::empty() =~= out@);
    out
}

/// Whether every unit belongs to a character.
pub open spec fn is_text(u: Seq<u16>) -> bool
    decreases u.len(),
{
    if u.len() == 0 {
        true
    } else if !is_high(u[0]) && !is_low(u[0]) {
        is_text(u.drop_first())
    } else if is_high(u[0]) && u.len() > 1 && is_low(u[1]) {
        is_text(u.skip(2))
    } else {
        false
    }
}

/// Whether every unit belongs to a character, see [`is_text`].
pub fn check(u: &[u16]) -> (r: bool)
    ensures
        r == is_text(u@),
{
    let mut i: usize = 0;
    assert(u@.skip(0) =~= u@);
    while i < u.len()
        invariant
            i <= u@.len(),
            is_text(u@) == is_text(u@.skip(i as int)),
        decreases u@.len() - i,
    {
        let ghost rest = u@.skip(i as int);
        let a: u16 = u[i];
        let high = 0xD800 <= a && a <= 0xDBFF;
        let low = 0xDC00 <= a && a <= 0xDFFF;
        if !high && !low {
            assert(rest.drop_first() =~= u@.skip(i + 1));
            i += 1;
        } else if high && i + 1 < u.len() && 0xDC00 <= u[i + 1] && u[i + 1] <= 0xDFFF {
            assert(rest.skip(2) =~= u@.skip(i + 2));
            i += 2;
        } else {
            return false;
        }
    }
    true
}

proof fn lemma_units_front(c: char, s: Seq<char>)
    ensures
        units_of(seq![c] + s) == char_units(c) + units_of(s),
    decreases s.len(),
{
    let t = seq![c] + s;
    if s.len() == 0 {
        assert(t.drop_last() =~= Seq::<char>::empty());
        assert(units_of(t.drop_last()) =~= Seq::<u16>::empty());
        assert(units_of(s) =~= Seq::<u16>::empty());
        assert(units_of(t) =~= char_units(c) + units_of(s));
    } else {
        lemma_units_front(c, s.drop_last());
        assert(t.drop_last() =~= seq![c] + s.drop_last());
        assert(units_of(t) =~= char_units(c) + units_of(s));
    }
}

proof fn lemma_char_reads_back(c: char, rest: Seq<u16>)
    ensures
        text_of(char_units(c) + rest) == seq![c] + text_of(rest),
{
    let u = char_units(c) + rest;
    let n = c as int;
    if n < 0x10000 {
        assert(u.drop_first() =~= rest);
        assert(u[0] == n as u16);
        assert(u[0] as char == c);
    } else {
        assert(u.skip(2) =~= rest);
        let k = n - 0x10000;
        assert(k == (k / 0x400) * 0x400 + k % 0x400);
        assert(pair_char(u[0], u[1]) == c);
    }
}

/// Decoding the units of a text gives the text back.
pub proof fn units_read_back(s: Seq<char>)
    ensures
        text_of(units_of(s)) == s,
    decreases s.len(),
{
    if s.len() > 0 {
        let rest = s.drop_first();
        assert(s =~= seq![s[0]] + rest);
        lemma_units_front(s[0], rest);
        units_read_back(rest);
        lemma_char_reads_back(s[0], units_of(rest));
    } else {
        assert(units_of(s) =~= Seq::<u16>::empty());
        assert(text_of(units_of(s)) =~= s);
    }
}

proof fn lemma_char_is_text(c: char, rest: Seq<u16>)
    requires
        is_text(rest),
    ensures
        is_text(char_units(c) + rest),
{
    let u = char_units(c) + rest;
    let n = c as int;
    if n < 0x10000 {
        assert(u.drop_first() =~= rest);
    } else {
        let k = n - 0x10000;
        assert(0 <= k / 0x400 < 0x400 && 0 <= k % 0x400 < 0x400);
        assert(u.skip(2) =~= rest);
    }
}

/// Units that are text are those of the text that they stand for, so reading loses nothing of
/// them; and the units of every text are text.
pub proof fn text_units_are_exact(u: Seq<u16>, s: Seq<char>)
    ensures
        is_text(u) ==> units_of(text_of(u)) == u,
        is_text(units_of(s)),
    decreases u.len() + s.len(),
{
    if u.len() == 0 {
        assert(text_of(u) =~= Seq::<char>::empty());
        assert(units_of(text_of(u)) =~= u);
    } else if !is_high(u[0]) && !is_low(u[0]) {
        let rest = u.drop_first();
        text_units_are_exact(rest, Seq::empty());
        lemma_units_front(u[0] as char, text_of(rest));
        if is_text(u) {
            assert(char_units(u[0] as char) =~= seq![u[0]]);
            assert(seq![u[0]] + rest =~= u);
        }
    } else if is_high(u[0]) && u.len() > 1 && is_low(u[1]) {
        let rest = u.skip(2);
        text_units_are_exact(rest, Seq::empty());
        let c = pair_char(u[0], u[1]);
        lemma_units_front(c, text_of(rest));
        if is_text(u) {
            let k = (u[0] - 0xD800) * 0x400 + (u[1] - 0xDC00);
            assert(0 <= k < 0x10_0000);
            assert(c as int == 0x10000 + k);
            assert(k / 0x400 == u[0] - 0xD800 && k % 0x400 == u[1] - 0xDC00);
            assert(char_units(c) =~= seq![u[0], u[1]]);
            assert(seq![u[0], u[1]] + rest =~= u);
        }
    }
    if s.len() > 0 {
        let rest = s.drop_first();
        assert(s =~= seq![s[0]] + rest);
        lemma_units_front(s[0], rest);
        text_units_are_exact(Seq::empty(), rest);
        lemma_char_is_text(s[0], units_of(rest));
    } else {
        assert(units_of(s) =~= Seq::<u16>::empty());
    }
}

} // verus!
