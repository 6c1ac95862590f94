//! UTF-8 text, also where bytes are broken or cut short.

use vstd::prelude::*;
use vstd::slice::slice_subrange;

verus! {

// ---------------------------------------------------------------------------
// One character
// ---------------------------------------------------------------------------

/// The bytes of a character that starts with a byte; 0 where none does.
pub open spec fn width_of(b: u8) -> nat {
    if b < 0x80 {
        1
    } else if 0xC2 <= b <= 0xDF {
        2
    } else if 0xE0 <= b <= 0xEF {
        3
    } else if 0xF0 <= b <= 0xF4 {
        4
    } else {
        0
    }
}

/// Whether a byte goes on with a character.
pub open spec fn goes_on(b: u8) -> bool {
    0x80 <= b <= 0xBF
}

/// Whether a byte may stand behind the first byte of a character. Some first bytes leave less
/// room: longer forms than needed, surrogates and numbers that are too large are no characters.
pub open spec fn second_fits(a: u8, b: u8) -> bool {
    &&& goes_on(b)
    &&& a == 0xE0 ==> b >= 0xA0
    &&& a == 0xED ==> b <= 0x9F
    &&& a == 0xF0 ==> b >= 0x90
    &&& a == 0xF4 ==> b <= 0x8F
}

/// What stands at the front of bytes.
pub enum Front {
    /// A character of so many bytes.
    Char(nat),
    /// So many bytes that begin no character.
    Bad(nat),
    /// The beginning of a character; the bytes end inside it.
    Cut,
}

/// What stands at the front of bytes that are not empty.
pub open spec fn front(b: Seq<u8>) -> Front {
    let w = width_of(b[0]);
    if w == 0 {
        Front::Bad(1)
    } else if w == 1 {
        Front::Char(1)
    } else if b.len() < 2 {
        Front::Cut
    } else if !second_fits(b[0], b[1]) {
        Front::Bad(1)
    } else if w == 2 {
        Front::Char(2)
    } else if b.len() < 3 {
        Front::Cut
    } else if !goes_on(b[2]) {
        Front::Bad(2)
    } else if w == 3 {
        Front::Char(3)
    } else if b.len() < 4 {
        Front::Cut
    } else if !goes_on(b[3]) {
        Front::Bad(3)
    } else {
        Front::Char(4)
    }
}

/// The number of the character at the front of bytes.
pub open spec fn number(b: Seq<u8>) -> int {
    let w = width_of(b[0]);
    if w == 1 {
        b[0] as int
    } else if w == 2 {
        (b[0] - 0xC0) * 64 + (b[1] - 0x80)
    } else if w == 3 {
        (b[0] - 0xE0) * 4096 + (b[1] - 0x80) * 64 + (b[2] - 0x80)
    } else {
        (b[0] - 0xF0) * 262144 + (b[1] - 0x80) * 4096 + (b[2] - 0x80) * 64 + (b[3] - 0x80)
    }
}

/// What stands at the front of bytes, with the character.
#[derive(Clone, Copy, Debug)]
pub enum Found {
    Char(char, usize),
    Bad(usize),
    Cut,
}

fn is_on(b: u8) -> (r: bool)
    ensures
        r == goes_on(b),
{
    0x80 <= b && b <= 0xBF
}

fn char_of(n: u32) -> (r: char)
    requires
        n <= 0xD7FF || 0xE000 <= n <= 0x10FFFF,
    ensures
        r == n as char,
{
    match char::from_u32(n) {
        Some(c) => c,
        None => '\u{FFFD}',
    }
}

/// Looks at the front of bytes, see [`front`] and [`number`].
pub fn look(b: &[u8]) -> (r: Found)
    requires
        b@.len() > 0,
    ensures
        match r {
            Found::Char(c, n) => front(b@) == Front::Char(n as nat) && c == number(b@) as char && n
                <= b@.len(),
            Found::Bad(n) => front(b@) == Front::Bad(n as nat) && n <= b@.len(),
            Found::Cut => front(b@) == Front::Cut,
        },
{
    let n: usize = b.len();
    let a: u8 = b[0];
    if a < 0x80 {
        return Found::Char(char_of(a as u32), 1);
    }
    if a < 0xC2 || a > 0xF4 {
        return Found::Bad(1);
    }
    if n < 2 {
        return Found::Cut;
    }
    let s: u8 = b[1];
    if !is_on(s) || (a == 0xE0 && s < 0xA0) || (a == 0xED && s > 0x9F) || (a == 0xF0 && s < 0x90)
        || (a == 0xF4 && s > 0x8F) {
        return Found::Bad(1);
    }
    if a <= 0xDF {
        return Found::Char(char_of((a as u32 - 0xC0) * 64 + (s as u32 - 0x80)), 2);
    }
    if n < 3 {
        return Found::Cut;
    }
    let t: u8 = b[2];
    if !is_on(t) {
        return Found::Bad(2);
    }
    if a <= 0xEF {
        let c: u32 = (a as u32 - 0xE0) * 4096 + (s as u32 - 0x80) * 64 + (t as u32 - 0x80);
        return Found::Char(char_of(c), 3);
    }
    if n < 4 {
        return Found::Cut;
    }
    let u: u8 = b[3];
    if !is_on(u) {
        return Found::Bad(3);
    }
    let c: u32 = (a as u32 - 0xF0) * 262144 + (s as u32 - 0x80) * 4096 + (t as u32 - 0x80) * 64 + (
    u as u32 - 0x80);
    Found::Char(char_of(c), 4)
}

// ---------------------------------------------------------------------------
// Whole texts
// ---------------------------------------------------------------------------

/// The length of the longest front that is made of whole characters.
pub open spec fn whole_len(b: Seq<u8>) -> nat
    decreases b.len(),
{
    if b.len() == 0 {
        0
    } else {
        match front(b) {
            Front::Char(n) => n + whole_len(b.skip(n as int)),
            _ => 0,
        }
    }
}

/// The text of the longest front that is made of whole characters.
pub open spec fn whole_text(b: Seq<u8>) -> Seq<char>
    decreases b.len(),
{
    if b.len() == 0 {
        Seq::empty()
    } else {
        match front(b) {
            Front::Char(n) => seq![number(b) as char] + whole_text(b.skip(n as int)),
            _ => Seq::empty(),
        }
    }
}

/// What is left behind the longest front that is made of whole characters.
pub open spec fn rest(b: Seq<u8>) -> Seq<u8> {
    b.skip(whole_len(b) as int)
}

/// The text of bytes; what is no character becomes U+FFFD.
pub open spec fn lossy(b: Seq<u8>) -> Seq<char>
    decreases b.len(),
{
    if b.len() == 0 {
        Seq::empty()
    } else {
        match front(b) {
            Front::Char(n) => seq![number(b) as char] + lossy(b.skip(n as int)),
            Front::Bad(n) => seq!['\u{FFFD}'] + lossy(b.skip(n as int)),
            Front::Cut => seq!['\u{FFFD}'],
        }
    }
}

/// Whether bytes are made of whole characters.
pub open spec fn is_text(b: Seq<u8>) -> bool {
    whole_len(b) == b.len()
}

/// Whether bytes end inside a character and are fine before it.
pub open spec fn is_cut(b: Seq<u8>) -> bool {
    rest(b).len() > 0 && front(rest(b)) == Front::Cut
}

/// The bounds of [`whole_len`].
pub proof fn lemma_whole_len(b: Seq<u8>)
    ensures
        whole_len(b) <= b.len(),
    decreases b.len(),
{
    if b.len() > 0 {
        match front(b) {
            Front::Char(n) => {
                lemma_whole_len(b.skip(n as int));
            },
            _ => {},
        }
    }
}

/// The longest front of whole characters: its length, its text, and whether the bytes end
/// inside a character behind it.
pub fn read_whole(b: &[u8]) -> (r: (usize, Vec<char>, bool))
    ensures
        r.0 == whole_len(b@),
        r.0 <= b@.len(),
        r.1@ == whole_text(b@),
        r.2 == is_cut(b@),
{
    let mut at: usize = 0;
    let mut out: Vec<char> = Vec::new();
    assert(b@.skip(0) =~= b@);
    assert(out@ + whole_text(b@) =~= whole_text(b@));
    while at < b.len()
        invariant
            at <= b@.len(),
            whole_len(b@) == at + whole_len(b@.skip(at as int)),
            whole_text(b@) == out@ + whole_text(b@.skip(at as int)),
        decreases b@.len() - at,
    {
        let tail = slice_subrange(b, at, b.len());
        assert(tail@ =~= b@.skip(at as int));
        match look(tail) {
            Found::Char(c, n) => {
                let ghost before = out@;
                let ghost left = whole_text(b@.skip(at + n));
                assert(tail@.skip(n as int) =~= b@.skip(at + n));
                out.push(c);
                assert(before + (seq![c] + left) =~= out@ + left);
                at += n;
            },
            Found::Bad(_) => {
                assert(out@ + whole_text(b@.skip(at as int)) =~= out@);
                return (at, out, false);
            },
            Found::Cut => {
                assert(out@ + whole_text(b@.skip(at as int)) =~= out@);
                return (at, out, true);
            },
        }
    }
    assert(out@ + whole_text(b@.skip(at as int)) =~= out@);
    (at, out, false)
}

/// The text of bytes, see [`lossy`].
pub fn read_lossy(b: &[u8]) -> (r: Vec<char>)
    ensures
        r@ == lossy(b@),
{
    let mut at: usize = 0;
    let mut out: Vec<char> = Vec::new();
    assert(b@.skip(0) =~= b@);
    assert(out@ + lossy(b@) =~= lossy(b@));
    while at < b.len()
        invariant
            at <= b@.len(),
            lossy(b@) == out@ + lossy(b@.skip(at as int)),
        decreases b@.len() - at,
    {
        let tail = slice_subrange(b, at, b.len());
        assert(tail@ =~= b@.skip(at as int));
        let ghost before = out@;
        match look(tail) {
            Found::Char(c, n) => {
                let ghost left = lossy(b@.skip(at + n));
                assert(tail@.skip(n as int) =~= b@.skip(at + n));
                out.push(c);
                assert(before + (seq![c] + left) =~= out@ + left);
                at += n;
            },
            Found::Bad(n) => {
                let ghost left = lossy(b@.skip(at + n));
                assert(tail@.skip(n as int) =~= b@.skip(at + n));
                out.push('\u{FFFD}');
                assert(before + (seq!['\u{FFFD}'] + left) =~= out@ + left);
                at += n;
            },
            Found::Cut => {
                out.push('\u{FFFD}');
                assert(before + seq!['\u{FFFD}'] =~= out@);
                return out;
            },
        }
    }
    assert(out@ + lossy(b@.skip(at as int)) =~= out@);
    out
}

// ---------------------------------------------------------------------------
// Laws
// ---------------------------------------------------------------------------

proof fn lemma_front_extends(a: Seq<u8>, b: Seq<u8>)
    requires
        a.len() > 0,
        front(a) != Front::Cut,
    ensures
        front(a + b) == front(a),
        front(a) is Char ==> number(a + b) == number(a) && front(a)->Char_0 <= a.len(),
{
    assert((a + b)[0] == a[0]);
    if a.len() > 1 {
        assert((a + b)[1] == a[1]);
    }
    if a.len() > 2 {
        assert((a + b)[2] == a[2]);
    }
    if a.len() > 3 {
        assert((a + b)[3] == a[3]);
    }
}

/// Reading bytes in two goes, keeping what was left of the first for the second, gives the
/// same as reading them in one.
pub proof fn reading_ignores_cuts(a: Seq<u8>, b: Seq<u8>)
    ensures
        whole_len(a + b) == whole_len(a) + whole_len(rest(a) + b),
        whole_text(a + b) == whole_text(a) + whole_text(rest(a) + b),
        rest(a + b) == rest(rest(a) + b),
    decreases a.len(),
{
    lemma_whole_len(a);
    lemma_whole_len(a + b);
    lemma_whole_len(rest(a) + b);
    if a.len() == 0 {
        assert(rest(a) + b =~= a + b);
        assert(whole_text(a) + whole_text(rest(a) + b) =~= whole_text(a + b));
    } else {
        match front(a) {
            Front::Char(n) => {
                lemma_front_extends(a, b);
                let t = a.skip(n as int);
                reading_ignores_cuts(t, b);
                lemma_whole_len(t);
                assert((a + b).skip(n as int) =~= t + b);
                assert(rest(a) =~= rest(t));
                assert(whole_text(a + b) =~= whole_text(a) + whole_text(rest(a) + b));
            },
            _ => {
                assert(rest(a) =~= a);
                assert(whole_text(a) + whole_text(rest(a) + b) =~= whole_text(a + b));
            },
        }
    }
    assert(rest(a + b) =~= rest(rest(a) + b)) by {
        assert((a + b).skip(whole_len(a) as int) =~= rest(a) + b);
        assert((a + b).skip((whole_len(a) + whole_len(rest(a) + b)) as int) =~= (rest(a) + b).skip(
            whole_len(rest(a) + b) as int,
        ));
    }
}

/// The text of bytes is that of the whole characters in front, then that of what is left.
pub proof fn lossy_splits(b: Seq<u8>)
    ensures
        lossy(b) == whole_text(b) + lossy(rest(b)),
    decreases b.len(),
{
    if b.len() == 0 {
        assert(rest(b) =~= b);
        assert(lossy(b) =~= whole_text(b) + lossy(rest(b)));
    } else {
        match front(b) {
            Front::Char(n) => {
                let t = b.skip(n as int);
                lossy_splits(t);
                lemma_whole_len(t);
                assert(rest(b) =~= rest(t));
                assert(lossy(b) =~= whole_text(b) + lossy(rest(b)));
            },
            _ => {
                assert(rest(b) =~= b);
                assert(lossy(b) =~= whole_text(b) + lossy(rest(b)));
            },
        }
    }
}

proof fn lemma_bits(a: u8, b: u8, c: u8, d: u8)
    by (bit_vector)
    ensures
        a <= 0x7f ==> (a & 0x7F) as u32 == a as u32,
        (0xc0 <= a <= 0xdf && 0x80 <= b <= 0xbf) ==> ((((a & 0x1F) as u32) << 6) | ((b
            & 0x3f) as u32)) == (a - 0xc0) * 64 + (b - 0x80),
        (0xe0 <= a <= 0xef && 0x80 <= b <= 0xbf && 0x80 <= c <= 0xbf) ==> ((((a & 0x0F) as u32)
            << 12) | (((b & 0x3f) as u32) << 6) | ((c & 0x3f) as u32)) == (a - 0xe0) * 4096 + (b
            - 0x80) * 64 + (c - 0x80),
        (0xf0 <= a <= 0xf7 && 0x80 <= b <= 0xbf && 0x80 <= c <= 0xbf && 0x80 <= d <= 0xbf) ==> ((((
        a & 0x07) as u32) << 18) | (((b & 0x3f) as u32) << 12) | (((c & 0x3f) as u32) << 6) | ((d
            & 0x3f) as u32)) == (a - 0xf0) * 262144 + (b - 0x80) * 4096 + (c - 0x80) * 64 + (d
            - 0x80),
{
}

proof fn lemma_first_scalar(b: Seq<u8>)
    requires
        b.len() > 0,
        vstd::utf8::valid_first_scalar(b),
    ensures
        front(b) == Front::Char(vstd::utf8::length_of_first_scalar(b) as nat),
        number(b) == vstd::utf8::decode_first_scalar(b),
{
    let b1 = if b.len() > 1 {
        b[1]
    } else {
        0
    };
    let b2 = if b.len() > 2 {
        b[2]
    } else {
        0
    };
    let b3 = if b.len() > 3 {
        b[3]
    } else {
        0
    };
    lemma_bits(b[0], b1, b2, b3);
}

/// Bytes that are UTF-8 read as the text they stand for.
pub proof fn reading_is_decoding(b: Seq<u8>)
    requires
        vstd::utf8::valid_utf8(b),
    ensures
        is_text(b),
        whole_text(b) == vstd::utf8::decode_utf8(b),
        lossy(b) == vstd::utf8::decode_utf8(b),
    decreases b.len(),
{
    if b.len() > 0 {
        lemma_first_scalar(b);
        let n = vstd::utf8::length_of_first_scalar(b);
        assert(vstd::utf8::pop_first_scalar(b) =~= b.skip(n));
        reading_is_decoding(b.skip(n));
    }
}

/// A text that is written as UTF-8 reads back as it was.
pub proof fn text_reads_back(s: Seq<char>)
    ensures
        lossy(vstd::utf8::encode_utf8(s)) == s,
{
    vstd::utf8::encode_utf8_valid_utf8(s);
    vstd::utf8::encode_utf8_decode_utf8(s);
    reading_is_decoding(vstd::utf8::encode_utf8(s));
}

/// Every front of a text is a text itself, or ends inside a character.
pub proof fn fronts_of_text_are_fine(a: Seq<u8>, b: Seq<u8>)
    requires
        is_text(a + b),
    ensures
        is_text(a) || is_cut(a),
{
    let r = rest(a);
    lemma_whole_len(a);
    reading_ignores_cuts(a, b);
    reading_ignores_cuts(a, Seq::empty());
    assert(a + Seq::<u8>::empty() =~= a);
    assert(r + Seq::<u8>::empty() =~= r);
    assert(whole_len(r) == 0);
    if r.len() > 0 {
        assert((r + b).len() > 0 && whole_len(r + b) == (r + b).len());
        assert(r[0] == (r + b)[0]);
        if r.len() > 1 {
            assert(r[1] == (r + b)[1]);
        }
        if r.len() > 2 {
            assert(r[2] == (r + b)[2]);
        }
        if r.len() > 3 {
            assert(r[3] == (r + b)[3]);
        }
    }
}

/// Only bytes that are UTF-8 count as text: no longer forms than needed, no surrogates, and no
/// numbers that are too large.
pub proof fn only_utf8_is_text(b: Seq<u8>)
    ensures
        is_text(b) <==> vstd::utf8::valid_utf8(b),
    decreases b.len(),
{
    if vstd::utf8::valid_utf8(b) {
        reading_is_decoding(b);
    }
    if is_text(b) && b.len() > 0 {
        lemma_whole_len(b);
        match front(b) {
            Front::Char(n) => {
                let t = b.skip(n as int);
                lemma_whole_len(t);
                only_utf8_is_text(t);
                let b1 = if b.len() > 1 {
                    b[1]
                } else {
                    0
                };
                let b2 = if b.len() > 2 {
                    b[2]
                } else {
                    0
                };
                let b3 = if b.len() > 3 {
                    b[3]
                } else {
                    0
                };
                lemma_bits(b[0], b1, b2, b3);
                assert(vstd::utf8::valid_first_scalar(b));
                assert(vstd::utf8::pop_first_scalar(b) =~= t);
            },
            _ => {},
        }
    }
}

/// Bytes that end inside a character are no text yet, and only the beginning of one character
/// is left over: the bytes before it are a text.
pub proof fn only_the_last_character_is_cut(b: Seq<u8>)
    requires
        is_cut(b),
    ensures
        !is_text(b),
        1 <= rest(b).len() <= 3,
        rest(b).is_suffix_of(b),
        front(rest(b)) == Front::Cut,
{
    lemma_whole_len(b);
    let r = rest(b);
    assert(b.subrange(b.len() - r.len(), b.len() as int) =~= r);
}

} // verus!
