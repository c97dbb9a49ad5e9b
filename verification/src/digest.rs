//! Digests of message content: SHA-512 through the `sha2` crate, the
//! standard base64 encoding through the `base64` crate, and lower-case hex.

use vstd::prelude::*;
use base64::Engine;
use sha2::Digest;
use crate::text::push_char;

verus! {

/// The SHA-512 digest of `data` (FIPS 180-4), as computed by `sha2::Sha512`.
pub uninterp spec fn sha512_of(data: Seq<u8>) -> Seq<u8>;

/// `sha2::Sha512::digest`: the 64-byte SHA-512 digest of `data`.  The
/// contract names the digest and states its length, as `sha2` documents
/// (`OutputSize = U64`).
#[verifier::external_body]
pub(crate) fn sha512(data: &[u8]) -> (r: Vec<u8>)
    ensures
        r@ == sha512_of(data@),
        r@.len() == 64,
{
    sha2::Sha512::digest(data).to_vec()
}

/// The standard base64 alphabet of RFC 4648, table 1.
pub open spec fn base64_alphabet() -> Seq<char> {
    seq![
        'A', 'B', 'C', 'D', 'E', 'F', 'G', 'H', 'I', 'J', 'K', 'L', 'M', 'N', 'O', 'P',
        'Q', 'R', 'S', 'T', 'U', 'V', 'W', 'X', 'Y', 'Z', 'a', 'b', 'c', 'd', 'e', 'f',
        'g', 'h', 'i', 'j', 'k', 'l', 'm', 'n', 'o', 'p', 'q', 'r', 's', 't', 'u', 'v',
        'w', 'x', 'y', 'z', '0', '1', '2', '3', '4', '5', '6', '7', '8', '9', '+', '/',
    ]
}

/// Standard base64 with `=` padding (RFC 4648, section 4): every group of
/// three bytes becomes four characters of the alphabet, and a final group
/// of one or two bytes is completed with two or one `=`.
pub open spec fn base64_encoded(b: Seq<u8>) -> Seq<char>
    decreases b.len(),
{
    let a = base64_alphabet();
    if b.len() == 0 {
        Seq::empty()
    } else if b.len() == 1 {
        seq![a[b[0] as int / 4], a[(b[0] as int % 4) * 16], '=', '=']
    } else if b.len() == 2 {
        seq![
            a[b[0] as int / 4],
            a[(b[0] as int % 4) * 16 + b[1] as int / 16],
            a[(b[1] as int % 16) * 4],
            '=',
        ]
    } else {
        seq![
            a[b[0] as int / 4],
            a[(b[0] as int % 4) * 16 + b[1] as int / 16],
            a[(b[1] as int % 16) * 4 + b[2] as int / 64],
            a[b[2] as int % 64],
        ] + base64_encoded(b.skip(3))
    }
}

/// `base64::engine::general_purpose::STANDARD.encode`: the standard,
/// padded base64 encoding of `data` (RFC 4648, section 4), which is what
/// the crate documents for its `STANDARD` engine.  The crate panics when
/// the encoded length overflows `usize`; `requires` leaves that out.
#[verifier::external_body]
pub(crate) fn base64_standard(data: &[u8]) -> (r: String)
    requires
        4 * (data@.len() / 3 + 1) <= usize::MAX,
    ensures
        r@ == base64_encoded(data@),
{
    base64::engine::general_purpose::STANDARD.encode(data)
}

/// The lower-case hexadecimal digits.
pub open spec fn hex_alphabet() -> Seq<char> {
    seq!['0', '1', '2', '3', '4', '5', '6', '7', '8', '9', 'a', 'b', 'c', 'd', 'e', 'f']
}

/// Two lower-case hex digits per byte, high nibble first.
pub open spec fn hex_encoded(b: Seq<u8>) -> Seq<char>
    decreases b.len(),
{
    if b.len() == 0 {
        Seq::empty()
    } else {
        let last = b.last();
        hex_encoded(b.drop_last()).push(hex_alphabet()[last as int / 16]).push(
            hex_alphabet()[last as int % 16],
        )
    }
}

/// The hex digit of a value below 16.
fn hex_digit(v: u8) -> (r: char)
    requires
        v < 16,
    ensures
        r == hex_alphabet()[v as int],
{
    match v {
        0 => '0',
        1 => '1',
        2 => '2',
        3 => '3',
        4 => '4',
        5 => '5',
        6 => '6',
        7 => '7',
        8 => '8',
        9 => '9',
        10 => 'a',
        11 => 'b',
        12 => 'c',
        13 => 'd',
        14 => 'e',
        _ => 'f',
    }
}

/// Lower-case hex encoding of `bytes`, two digits per byte.
pub fn hex_lower(bytes: &[u8]) -> (r: String)
    ensures
        r@ == hex_encoded(bytes@),
        r@.len() == 2 * bytes@.len(),
{
    let mut s = String::new();
    let mut i: usize = 0;
    while i < bytes.len()
        invariant
            i <= bytes.len(),
            s@ == hex_encoded(bytes@.take(i as int)),
            s@.len() == 2 * i,
        decreases bytes.len() - i,
    {
        let b = bytes[i];
        assert(bytes@.take(i + 1).drop_last() =~= bytes@.take(i as int));
        push_char(&mut s, hex_digit(b / 16));
        push_char(&mut s, hex_digit(b % 16));
        i = i + 1;
    }
    assert(bytes@.take(i as int) =~= bytes@);
    s
}

/// The value of a lower-case hex digit.
pub open spec fn hex_value(c: char) -> int {
    if '0' <= c && c <= '9' {
        c as int - '0' as int
    } else if 'a' <= c && c <= 'f' {
        c as int - 'a' as int + 10
    } else {
        0
    }
}

/// The bytes spelled by pairs of hex digits, high nibble first.
pub open spec fn hex_decoded(s: Seq<char>) -> Seq<u8>
    decreases s.len(),
{
    if s.len() < 2 {
        Seq::empty()
    } else {
        hex_decoded(s.drop_last().drop_last()).push(
            (hex_value(s[s.len() - 2]) * 16 + hex_value(s[s.len() - 1])) as u8,
        )
    }
}

proof fn lemma_hex_digit_value(k: int)
    requires
        0 <= k < 16,
    ensures
        hex_value(hex_alphabet()[k]) == k,
{
    let a = hex_alphabet();
    if k < 10 {
        assert(a[k] as int == '0' as int + k) by {
            if k == 0 {} else if k == 1 {} else if k == 2 {} else if k == 3 {} else if k == 4 {}
            else if k == 5 {} else if k == 6 {} else if k == 7 {} else if k == 8 {} else {}
        }
    } else {
        assert(a[k] as int == 'a' as int + k - 10) by {
            if k == 10 {} else if k == 11 {} else if k == 12 {} else if k == 13 {} else if k == 14 {}
            else {}
        }
    }
}

/// Hex encoding can be undone: reading the digits back in pairs gives the
/// bytes again.  So two byte strings with the same hex encoding are equal.
pub proof fn lemma_hex_decodes(b: Seq<u8>)
    ensures
        hex_decoded(hex_encoded(b)) == b,
        hex_encoded(b).len() == 2 * b.len(),
    decreases b.len(),
{
    if b.len() > 0 {
        let last = b.last();
        lemma_hex_decodes(b.drop_last());
        lemma_hex_digit_value(last as int / 16);
        lemma_hex_digit_value(last as int % 16);
        let e = hex_encoded(b);
        assert(e.drop_last().drop_last() =~= hex_encoded(b.drop_last()));
        assert(b.drop_last().push(last) =~= b);
    }
}

/// Two byte strings with the same hex encoding are equal.
pub proof fn lemma_hex_injective(a: Seq<u8>, b: Seq<u8>)
    requires
        hex_encoded(a) == hex_encoded(b),
    ensures
        a == b,
{
    lemma_hex_decodes(a);
    lemma_hex_decodes(b);
}

/// The hex encoding of two byte strings one after the other is their
/// encodings one after the other.
pub proof fn lemma_hex_concat(a: Seq<u8>, b: Seq<u8>)
    ensures
        hex_encoded(a + b) == hex_encoded(a) + hex_encoded(b),
    decreases b.len(),
{
    if b.len() == 0 {
        assert(a + b =~= a);
        assert(hex_encoded(a) + hex_encoded(b) =~= hex_encoded(a));
    } else {
        lemma_hex_concat(a, b.drop_last());
        assert((a + b).drop_last() =~= a + b.drop_last());
        assert((a + b).last() == b.last());
        let x = hex_alphabet()[b.last() as int / 16];
        let y = hex_alphabet()[b.last() as int % 16];
        assert(hex_encoded(a) + hex_encoded(b.drop_last()).push(x).push(y) =~= (hex_encoded(a)
            + hex_encoded(b.drop_last())).push(x).push(y));
    }
}

/// A padded base64 encoding of a byte string whose length leaves one byte
/// over in its last group ends with two `=`.
pub proof fn lemma_base64_two_pads(b: Seq<u8>)
    requires
        b.len() % 3 == 1,
    ensures
        base64_encoded(b).len() >= 4,
        base64_encoded(b)[base64_encoded(b).len() - 1] == '=',
        base64_encoded(b)[base64_encoded(b).len() - 2] == '=',
    decreases b.len(),
{
    if b.len() > 2 {
        lemma_base64_two_pads(b.skip(3));
    }
}

/// The length of a padded base64 encoding: four characters for every
/// started group of three bytes.
pub proof fn lemma_base64_len(b: Seq<u8>)
    ensures
        base64_encoded(b).len() == 4 * ((b.len() + 2) / 3),
    decreases b.len(),
{
    if b.len() > 2 {
        lemma_base64_len(b.skip(3));
    }
}

} // verus!
