//! Digests, base64 and hexadecimal text.

use crate::text;
use vstd::prelude::*;

verus! {

/// The SHA-256 digest of bytes.
pub uninterp spec fn sha256_of(bytes: Seq<u8>) -> Seq<u8>;

/// The base64 character of a value below 64.
pub open spec fn base64_char(n: int) -> char {
    if n < 26 {
        ((65 + n) as u8) as char
    } else if n < 52 {
        ((97 + n - 26) as u8) as char
    } else if n < 62 {
        ((48 + n - 52) as u8) as char
    } else if n == 62 {
        '+'
    } else {
        '/'
    }
}

/// The number that three bytes from an index on make; missing bytes are 0.
pub open spec fn three_bytes(bytes: Seq<u8>, at: int) -> int {
    let byte = |k: int|
        if k < bytes.len() {
            bytes[k] as int
        } else {
            0
        };
    65536 * byte(at) + 256 * byte(at + 1) + byte(at + 2)
}

/// Bytes as standard base64 text with padding: four characters for three bytes, six bits each,
/// and `=` where there are no bits.
pub open spec fn base64_text(bytes: Seq<u8>) -> Seq<char> {
    Seq::new(
        4 * ((bytes.len() + 2) / 3),
        |i: int|
            {
                let at = 3 * (i / 4);
                let bits = three_bytes(bytes, at);
                if i % 4 == 0 {
                    base64_char(bits / 262144)
                } else if i % 4 == 1 {
                    base64_char(bits / 4096 % 64)
                } else if i % 4 == 2 {
                    if at + 1 < bytes.len() {
                        base64_char(bits / 64 % 64)
                    } else {
                        '='
                    }
                } else if at + 2 < bytes.len() {
                    base64_char(bits % 64)
                } else {
                    '='
                }
            },
    )
}

/// Base64 text has no white space at its ends.
pub proof fn base64_is_trimmed(bytes: Seq<u8>)
    ensures
        text::trimmed(base64_text(bytes)) == base64_text(bytes),
{
    let t = base64_text(bytes);
    if t.len() > 0 {
        let last = t.len() - 1;
        assert(!text::is_space(t[0]));
        assert(last % 4 == 3);
        assert(!text::is_space(t[last]));
    }
    text::lemma_trimmed_id(t);
}

/// The bytes that standard base64 text stands for, or why it is none.
pub uninterp spec fn base64_bytes(s: Seq<char>) -> Result<Seq<u8>, Seq<char>>;

/// The digest of bytes, from `sha2::Sha256` through `sha2::Digest::digest`.
///
/// It depends on the bytes alone and is 32 bytes long.
#[verifier::external_body]
pub(crate) fn sha256(bytes: &[u8]) -> (r: Vec<u8>)
    ensures
        r@ == sha256_of(bytes@),
        r@.len() == 32,
{
    <sha2::Sha256 as sha2::Digest>::digest(bytes).to_vec()
}

/// Encodes bytes with `base64::Engine::encode` on the standard engine.
///
/// The text is that of [`base64_text`], and decoding it gives the bytes back.
#[verifier::external_body]
pub(crate) fn base64_encode(bytes: &[u8]) -> (r: String)
    ensures
        r@ == base64_text(bytes@),
        base64_bytes(r@) is Ok && base64_bytes(r@)->Ok_0 == bytes@,
{
    base64::Engine::encode(&base64::engine::general_purpose::STANDARD, bytes)
}

/// Decodes text with `base64::Engine::decode` on the standard engine.
///
/// The bytes, or the message, depend on the text alone.
#[verifier::external_body]
pub(crate) fn base64_decode(s: &str) -> (r: Result<Vec<u8>, String>)
    ensures
        match r {
            Ok(b) => base64_bytes(s@) == Ok::<Seq<u8>, Seq<char>>(b@),
            Err(e) => base64_bytes(s@) == Err::<Seq<u8>, Seq<char>>(e@),
        },
{
    base64::Engine::decode(&base64::engine::general_purpose::STANDARD, s).map_err(
        |e| e.to_string(),
    )
}

/// The lower case hexadecimal digit of a value below 16.
pub open spec fn hex_digit(d: int) -> char {
    if d < 10 {
        ((48 + d) as u8) as char
    } else {
        ((87 + d) as u8) as char
    }
}

/// Bytes as lower case hexadecimal text, two digits for each.
pub open spec fn hex_text(bytes: Seq<u8>) -> Seq<char> {
    Seq::new(
        2 * bytes.len(),
        |i: int|
            hex_digit(
                if i % 2 == 0 {
                    bytes[i / 2] as int / 16
                } else {
                    bytes[i / 2] as int % 16
                },
            ),
    )
}

fn hex_char(d: u8) -> (r: char)
    requires
        d < 16,
    ensures
        r == hex_digit(d as int),
{
    if d < 10 {
        (48 + d) as char
    } else {
        (87 + d) as char
    }
}

/// Bytes as hexadecimal text, see [`hex_text`].
pub fn hex(bytes: &[u8]) -> (r: String)
    ensures
        r@ == hex_text(bytes@),
{
    let mut out = String::new();
    let mut i: usize = 0;
    while i < bytes.len()
        invariant
            i <= bytes@.len(),
            out@ == hex_text(bytes@).take(2 * i),
        decreases bytes@.len() - i,
    {
        let b: u8 = bytes[i];
        out.push(hex_char(b / 16));
        out.push(hex_char(b % 16));
        proof {
            let all = hex_text(bytes@);
            assert((2 * i) / 2 == i && (2 * i + 1) / 2 == i);
            assert(all[2 * i] == hex_digit(b as int / 16));
            assert(all[2 * i + 1] == hex_digit(b as int % 16));
            assert(all.take(2 * (i + 1)) =~= all.take(2 * i).push(all[2 * i]).push(
                all[2 * i + 1],
            ));
        }
        i += 1;
    }
    assert(hex_text(bytes@).take(2 * i) =~= hex_text(bytes@));
    out
}

/// A number in lower case hexadecimal digits, without leading zeros.
pub open spec fn hex_number(n: nat) -> Seq<char>
    decreases n,
{
    if n < 16 {
        seq![hex_digit(n as int)]
    } else {
        hex_number(n / 16).push(hex_digit((n % 16) as int))
    }
}

/// Writes a number in hexadecimal digits, see [`hex_number`].
pub fn hex_of(n: u128) -> (r: String)
    ensures
        r@ == hex_number(n as nat),
    decreases n,
{
    let d: u8 = (n % 16) as u8;
    let mut out = if n < 16 {
        text::owned("")
    } else {
        hex_of(n / 16)
    };
    proof {
        reveal_strlit("");
    }
    out.push(hex_char(d));
    assert(out@ =~= hex_number(n as nat));
    out
}

// ---------------------------------------------------------------------------
// Numbers as bytes
// ---------------------------------------------------------------------------

/// The last `len` bytes of a number, lowest first.
pub open spec fn le_bytes(n: nat, len: nat) -> Seq<u8>
    decreases len,
{
    if len == 0 {
        Seq::empty()
    } else {
        seq![(n % 256) as u8] + le_bytes(n / 256, (len - 1) as nat)
    }
}

/// Appends the lowest bytes of a number, see [`le_bytes`].
pub fn push_le(out: &mut Vec<u8>, n: u128, len: usize)
    ensures
        final(out)@ == old(out)@ + le_bytes(n as nat, len as nat),
{
    let mut left: u128 = n;
    let mut k: usize = 0;
    let ghost start = out@;
    assert(out@ + le_bytes(n as nat, len as nat) =~= start + le_bytes(n as nat, len as nat));
    while k < len
        invariant
            k <= len,
            start + le_bytes(n as nat, len as nat) == out@ + le_bytes(
                left as nat,
                (len - k) as nat,
            ),
        decreases len - k,
    {
        let ghost before = out@;
        let ghost tail = le_bytes((left / 256) as nat, (len - k - 1) as nat);
        let b: u8 = (left % 256) as u8;
        out.push(b);
        assert(before + (seq![b] + tail) =~= out@ + tail);
        left = left / 256;
        k += 1;
    }
    assert(out@ + le_bytes(left as nat, 0) =~= out@);
}

/// The number that bytes stand for, lowest first.
pub open spec fn le_value(b: Seq<u8>) -> nat
    decreases b.len(),
{
    if b.len() == 0 {
        0
    } else {
        b[0] as nat + 256 * le_value(b.skip(1))
    }
}

/// The lowest bytes of a number are as many as asked for and stand for the number, up to what
/// so many bytes can hold.
pub proof fn le_bytes_read_back(n: nat, len: nat)
    ensures
        le_bytes(n, len).len() == len,
        le_value(le_bytes(n, len)) == n % (vstd::arithmetic::power::pow(256, len) as nat),
    decreases len,
{
    vstd::arithmetic::power::lemma_pow_positive(256, len);
    if len == 0 {
        vstd::arithmetic::power::lemma_pow0(256);
    } else {
        let less = (len - 1) as nat;
        let p = vstd::arithmetic::power::pow(256, less);
        let tail = le_bytes(n / 256, less);
        le_bytes_read_back(n / 256, less);
        assert(le_bytes(n, len).skip(1) =~= tail);
        vstd::arithmetic::power::lemma_pow_positive(256, less);
        assert(vstd::arithmetic::power::pow(256, len) == 256 * p) by {
            reveal(vstd::arithmetic::power::pow);
        }
        vstd::arithmetic::div_mod::lemma_mod_breakdown(n as int, 256, p);
    }
}

/// The value of a hexadecimal digit.
pub open spec fn hex_digit_value(c: char) -> int {
    if '0' <= c && c <= '9' {
        c as int - '0' as int
    } else {
        c as int - 'a' as int + 10
    }
}

/// The number that hexadecimal digits stand for, highest first.
pub open spec fn hex_value(s: Seq<char>) -> int
    decreases s.len(),
{
    if s.len() == 0 {
        0
    } else {
        16 * hex_value(s.drop_last()) + hex_digit_value(s.last())
    }
}

/// Every byte reads back from its two digits, in order.
pub proof fn hex_reads_back(bytes: Seq<u8>, k: int)
    requires
        0 <= k < bytes.len(),
    ensures
        hex_text(bytes).len() == 2 * bytes.len(),
        16 * hex_digit_value(hex_text(bytes)[2 * k]) + hex_digit_value(hex_text(bytes)[2 * k + 1])
            == bytes[k],
        text::is_hex(hex_text(bytes)[2 * k]),
        text::is_hex(hex_text(bytes)[2 * k + 1]),
{
    assert((2 * k) / 2 == k && (2 * k + 1) / 2 == k);
    let b = bytes[k] as int;
    assert(b / 16 < 16 && b % 16 < 16 && 16 * (b / 16) + b % 16 == b);
}

/// A number reads back from its hexadecimal digits, which do not start with 0 unless it is 0.
pub proof fn hex_numbers_read_back(n: nat)
    ensures
        hex_value(hex_number(n)) == n,
        hex_number(n).len() > 0,
        n > 0 ==> hex_number(n)[0] != '0',
    decreases n,
{
    let s = hex_number(n);
    if n < 16 {
        assert(s.drop_last() =~= Seq::<char>::empty());
        assert(hex_value(s.drop_last()) == 0);
    } else {
        hex_numbers_read_back(n / 16);
        assert(s.drop_last() =~= hex_number(n / 16));
        assert(n == 16 * (n / 16) + n % 16);
    }
}

/// Names that are made of two numbers in hexadecimal digits with a hyphen between them differ
/// where a number does.
pub proof fn numbered_names_differ(a: nat, b: nat, c: nat, d: nat)
    requires
        hex_number(a) + "-"@ + hex_number(b) == hex_number(c) + "-"@ + hex_number(d),
    ensures
        a == c,
        b == d,
{
    reveal_strlit("-");
    let x = hex_number(a);
    let y = hex_number(c);
    let s = x + "-"@ + hex_number(b);
    let t = y + "-"@ + hex_number(d);
    lemma_hex_number_chars(a);
    lemma_hex_number_chars(c);
    hex_numbers_read_back(a);
    hex_numbers_read_back(b);
    hex_numbers_read_back(c);
    hex_numbers_read_back(d);
    assert(s[x.len() as int] == '-');
    assert(t[y.len() as int] == '-');
    if x.len() < y.len() {
        assert(t[x.len() as int] == y[x.len() as int]);
    }
    if y.len() < x.len() {
        assert(s[y.len() as int] == x[y.len() as int]);
    }
    assert(s.take(x.len() as int) =~= x);
    assert(t.take(y.len() as int) =~= y);
    assert(s.skip(x.len() as int + 1) =~= hex_number(b));
    assert(t.skip(y.len() as int + 1) =~= hex_number(d));
}

proof fn lemma_hex_number_chars(n: nat)
    ensures
        forall|i: int| 0 <= i < hex_number(n).len() ==> #[trigger] hex_number(n)[i] != '-',
    decreases n,
{
    let s = hex_number(n);
    if n >= 16 {
        lemma_hex_number_chars(n / 16);
        let front = hex_number(n / 16);
        assert forall|i: int| 0 <= i < s.len() implies #[trigger] s[i] != '-' by {
            if i < front.len() {
                assert(s[i] == front[i]);
            } else {
                assert(s[i] == hex_digit((n % 16) as int));
            }
        }
    } else {
        assert(s[0] == hex_digit(n as int));
    }
}

} // verus!
