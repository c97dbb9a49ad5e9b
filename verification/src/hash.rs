//! The grammar of the tokens in an id interpolation pattern.
//!
//! A pattern is text with bracketed tokens.  A hash token reads
//! `[<hashType>:(hash|contenthash):<digestType>:<length>]`, where every part
//! but the keyword is optional, the keyword is matched without regard to
//! case, a digest type is letters, then digits, then letters, and a length
//! is decimal digits.  Any other `[...]` group is a token that the pattern
//! may not hold.

use vstd::prelude::*;
use crate::text::{chars_of, chars_eq, copy_range, extend_chars, string_from_chars};
use crate::digest::{
    base64_encoded, base64_standard, hex_encoded, hex_lower, lemma_base64_len, lemma_hex_decodes,
    sha512, sha512_of,
};
use vstd::utf8::encode_utf8;

verus! {

/// A letter of the class `[a-z]` matched without regard to case: ASCII
/// letters of either case, and the two characters whose simple case
/// folding reaches one of them, `U+017F` (long s) and `U+212A` (Kelvin sign).
pub open spec fn is_class_letter(c: char) -> bool {
    let u = c as u32;
    ||| 0x61 <= u && u <= 0x7A
    ||| 0x41 <= u && u <= 0x5A
    ||| u == 0x17F
    ||| u == 0x212A
}

/// Executable test of [`is_class_letter`].
pub fn class_letter(c: char) -> (r: bool)
    ensures
        r == is_class_letter(c),
{
    let u = c as u32;
    (0x61 <= u && u <= 0x7A) || (0x41 <= u && u <= 0x5A) || u == 0x17F || u == 0x212A
}

/// A decimal digit in the sense of Unicode general category `Nd`
/// (Unicode 16.0), the class `\d` of a Unicode regular expression.
pub open spec fn is_decimal_digit(c: char) -> bool {
    let u = c as u32;
    ||| 0x30 <= u && u <= 0x39
    ||| 0x660 <= u && u <= 0x669
    ||| 0x6F0 <= u && u <= 0x6F9
    ||| 0x7C0 <= u && u <= 0x7C9
    ||| 0x966 <= u && u <= 0x96F
    ||| 0x9E6 <= u && u <= 0x9EF
    ||| 0xA66 <= u && u <= 0xA6F
    ||| 0xAE6 <= u && u <= 0xAEF
    ||| 0xB66 <= u && u <= 0xB6F
    ||| 0xBE6 <= u && u <= 0xBEF
    ||| 0xC66 <= u && u <= 0xC6F
    ||| 0xCE6 <= u && u <= 0xCEF
    ||| 0xD66 <= u && u <= 0xD6F
    ||| 0xDE6 <= u && u <= 0xDEF
    ||| 0xE50 <= u && u <= 0xE59
    ||| 0xED0 <= u && u <= 0xED9
    ||| 0xF20 <= u && u <= 0xF29
    ||| 0x1040 <= u && u <= 0x1049
    ||| 0x1090 <= u && u <= 0x1099
    ||| 0x17E0 <= u && u <= 0x17E9
    ||| 0x1810 <= u && u <= 0x1819
    ||| 0x1946 <= u && u <= 0x194F
    ||| 0x19D0 <= u && u <= 0x19D9
    ||| 0x1A80 <= u && u <= 0x1A89
    ||| 0x1A90 <= u && u <= 0x1A99
    ||| 0x1B50 <= u && u <= 0x1B59
    ||| 0x1BB0 <= u && u <= 0x1BB9
    ||| 0x1C40 <= u && u <= 0x1C49
    ||| 0x1C50 <= u && u <= 0x1C59
    ||| 0xA620 <= u && u <= 0xA629
    ||| 0xA8D0 <= u && u <= 0xA8D9
    ||| 0xA900 <= u && u <= 0xA909
    ||| 0xA9D0 <= u && u <= 0xA9D9
    ||| 0xA9F0 <= u && u <= 0xA9F9
    ||| 0xAA50 <= u && u <= 0xAA59
    ||| 0xABF0 <= u && u <= 0xABF9
    ||| 0xFF10 <= u && u <= 0xFF19
    ||| 0x104A0 <= u && u <= 0x104A9
    ||| 0x10D30 <= u && u <= 0x10D39
    ||| 0x10D40 <= u && u <= 0x10D49
    ||| 0x11066 <= u && u <= 0x1106F
    ||| 0x110F0 <= u && u <= 0x110F9
    ||| 0x11136 <= u && u <= 0x1113F
    ||| 0x111D0 <= u && u <= 0x111D9
    ||| 0x112F0 <= u && u <= 0x112F9
    ||| 0x11450 <= u && u <= 0x11459
    ||| 0x114D0 <= u && u <= 0x114D9
    ||| 0x11650 <= u && u <= 0x11659
    ||| 0x116C0 <= u && u <= 0x116C9
    ||| 0x116D0 <= u && u <= 0x116E3
    ||| 0x11730 <= u && u <= 0x11739
    ||| 0x118E0 <= u && u <= 0x118E9
    ||| 0x11950 <= u && u <= 0x11959
    ||| 0x11BF0 <= u && u <= 0x11BF9
    ||| 0x11C50 <= u && u <= 0x11C59
    ||| 0x11D50 <= u && u <= 0x11D59
    ||| 0x11DA0 <= u && u <= 0x11DA9
    ||| 0x11F50 <= u && u <= 0x11F59
    ||| 0x16130 <= u && u <= 0x16139
    ||| 0x16A60 <= u && u <= 0x16A69
    ||| 0x16AC0 <= u && u <= 0x16AC9
    ||| 0x16B50 <= u && u <= 0x16B59
    ||| 0x16D70 <= u && u <= 0x16D79
    ||| 0x1CCF0 <= u && u <= 0x1CCF9
    ||| 0x1D7CE <= u && u <= 0x1D7FF
    ||| 0x1E140 <= u && u <= 0x1E149
    ||| 0x1E2F0 <= u && u <= 0x1E2F9
    ||| 0x1E4F0 <= u && u <= 0x1E4F9
    ||| 0x1E5F1 <= u && u <= 0x1E5FA
    ||| 0x1E950 <= u && u <= 0x1E959
    ||| 0x1FBF0 <= u && u <= 0x1FBF9
}

/// Executable test of [`is_decimal_digit`].
pub fn decimal_digit(c: char) -> (r: bool)
    ensures
        r == is_decimal_digit(c),
{
    let u = c as u32;
    (0x30 <= u && u <= 0x39)
        || (0x660 <= u && u <= 0x669)
        || (0x6F0 <= u && u <= 0x6F9)
        || (0x7C0 <= u && u <= 0x7C9)
        || (0x966 <= u && u <= 0x96F)
        || (0x9E6 <= u && u <= 0x9EF)
        || (0xA66 <= u && u <= 0xA6F)
        || (0xAE6 <= u && u <= 0xAEF)
        || (0xB66 <= u && u <= 0xB6F)
        || (0xBE6 <= u && u <= 0xBEF)
        || (0xC66 <= u && u <= 0xC6F)
        || (0xCE6 <= u && u <= 0xCEF)
        || (0xD66 <= u && u <= 0xD6F)
        || (0xDE6 <= u && u <= 0xDEF)
        || (0xE50 <= u && u <= 0xE59)
        || (0xED0 <= u && u <= 0xED9)
        || (0xF20 <= u && u <= 0xF29)
        || (0x1040 <= u && u <= 0x1049)
        || (0x1090 <= u && u <= 0x1099)
        || (0x17E0 <= u && u <= 0x17E9)
        || (0x1810 <= u && u <= 0x1819)
        || (0x1946 <= u && u <= 0x194F)
        || (0x19D0 <= u && u <= 0x19D9)
        || (0x1A80 <= u && u <= 0x1A89)
        || (0x1A90 <= u && u <= 0x1A99)
        || (0x1B50 <= u && u <= 0x1B59)
        || (0x1BB0 <= u && u <= 0x1BB9)
        || (0x1C40 <= u && u <= 0x1C49)
        || (0x1C50 <= u && u <= 0x1C59)
        || (0xA620 <= u && u <= 0xA629)
        || (0xA8D0 <= u && u <= 0xA8D9)
        || (0xA900 <= u && u <= 0xA909)
        || (0xA9D0 <= u && u <= 0xA9D9)
        || (0xA9F0 <= u && u <= 0xA9F9)
        || (0xAA50 <= u && u <= 0xAA59)
        || (0xABF0 <= u && u <= 0xABF9)
        || (0xFF10 <= u && u <= 0xFF19)
        || (0x104A0 <= u && u <= 0x104A9)
        || (0x10D30 <= u && u <= 0x10D39)
        || (0x10D40 <= u && u <= 0x10D49)
        || (0x11066 <= u && u <= 0x1106F)
        || (0x110F0 <= u && u <= 0x110F9)
        || (0x11136 <= u && u <= 0x1113F)
        || (0x111D0 <= u && u <= 0x111D9)
        || (0x112F0 <= u && u <= 0x112F9)
        || (0x11450 <= u && u <= 0x11459)
        || (0x114D0 <= u && u <= 0x114D9)
        || (0x11650 <= u && u <= 0x11659)
        || (0x116C0 <= u && u <= 0x116C9)
        || (0x116D0 <= u && u <= 0x116E3)
        || (0x11730 <= u && u <= 0x11739)
        || (0x118E0 <= u && u <= 0x118E9)
        || (0x11950 <= u && u <= 0x11959)
        || (0x11BF0 <= u && u <= 0x11BF9)
        || (0x11C50 <= u && u <= 0x11C59)
        || (0x11D50 <= u && u <= 0x11D59)
        || (0x11DA0 <= u && u <= 0x11DA9)
        || (0x11F50 <= u && u <= 0x11F59)
        || (0x16130 <= u && u <= 0x16139)
        || (0x16A60 <= u && u <= 0x16A69)
        || (0x16AC0 <= u && u <= 0x16AC9)
        || (0x16B50 <= u && u <= 0x16B59)
        || (0x16D70 <= u && u <= 0x16D79)
        || (0x1CCF0 <= u && u <= 0x1CCF9)
        || (0x1D7CE <= u && u <= 0x1D7FF)
        || (0x1E140 <= u && u <= 0x1E149)
        || (0x1E2F0 <= u && u <= 0x1E2F9)
        || (0x1E4F0 <= u && u <= 0x1E4F9)
        || (0x1E5F1 <= u && u <= 0x1E5FA)
        || (0x1E950 <= u && u <= 0x1E959)
        || (0x1FBF0 <= u && u <= 0x1FBF9)
}

/// Whether `c` matches the lower-case ASCII letter `k` when case is
/// ignored: `k` itself, its upper case, or a character that folds to it.
pub open spec fn folds_to(c: char, k: char) -> bool {
    ||| c == k
    ||| c as u32 + 32 == k as u32
    ||| k == 's' && c as u32 == 0x17F
    ||| k == 'k' && c as u32 == 0x212A
}

/// Whether `w` spells the lower-case word `kw` when case is ignored.
pub open spec fn spells(w: Seq<char>, kw: Seq<char>) -> bool {
    &&& w.len() == kw.len()
    &&& forall|i: int| 0 <= i < w.len() ==> folds_to(#[trigger] w[i], kw[i])
}

pub open spec fn word_hash() -> Seq<char> {
    seq!['h', 'a', 's', 'h']
}

pub open spec fn word_contenthash() -> Seq<char> {
    seq!['c', 'o', 'n', 't', 'e', 'n', 't', 'h', 'a', 's', 'h']
}

/// The keyword of a hash token: `hash` or `contenthash`, in any case.
pub open spec fn is_hash_keyword(w: Seq<char>) -> bool {
    spells(w, word_hash()) || spells(w, word_contenthash())
}

fn spells_exec(w: &[char], kw: &[char]) -> (r: bool)
    requires
        forall|i: int| 0 <= i < kw@.len() ==> 0x61 <= #[trigger] (kw@[i] as u32) <= 0x7A,
    ensures
        r == spells(w@, kw@),
{
    if w.len() != kw.len() {
        return false;
    }
    let mut i: usize = 0;
    while i < w.len()
        invariant
            i <= w.len(),
            w.len() == kw.len(),
            forall|j: int| 0 <= j < i ==> folds_to(#[trigger] w@[j], kw@[j]),
        decreases w.len() - i,
    {
        let c = w[i];
        let k = kw[i];
        let cu = c as u32;
        let ku = k as u32;
        let ok = c == k || (ku >= 32 && cu == ku - 32) || (k == 's' && cu == 0x17F) || (k == 'k' && cu == 0x212A);
        if !ok {
            assert(!folds_to(w@[i as int], kw@[i as int]));
            return false;
        }
        i = i + 1;
    }
    true
}

/// Executable test of [`is_hash_keyword`].
pub fn hash_keyword(w: &[char]) -> (r: bool)
    ensures
        r == is_hash_keyword(w@),
{
    let kw1: [char; 4] = ['h', 'a', 's', 'h'];
    let kw2: [char; 11] = ['c', 'o', 'n', 't', 'e', 'n', 't', 'h', 'a', 's', 'h'];
    assert(kw1@ == word_hash());
    assert(kw2@ == word_contenthash());
    spells_exec(w, &kw1) || spells_exec(w, &kw2)
}

/// The state of the recognizer of `[a-z]+\d*[a-z]*` after reading `w`:
/// 0 before the first letter, 1 in the leading letters, 2 in the digits,
/// 3 in the trailing letters, and -1 once `w` cannot be completed.
pub open spec fn digest_name_state(w: Seq<char>) -> int
    decreases w.len(),
{
    if w.len() == 0 {
        0
    } else {
        let s = digest_name_state(w.drop_last());
        let c = w.last();
        if s == 0 {
            if is_class_letter(c) { 1 } else { -1 }
        } else if s == 1 {
            if is_class_letter(c) { 1 } else if is_decimal_digit(c) { 2 } else { -1 }
        } else if s == 2 {
            if is_decimal_digit(c) { 2 } else if is_class_letter(c) { 3 } else { -1 }
        } else if s == 3 {
            if is_class_letter(c) { 3 } else { -1 }
        } else {
            -1
        }
    }
}

/// A digest type: letters, then digits, then letters, at least one leading
/// letter (`[a-z]+\d*[a-z]*`, case ignored).
pub open spec fn is_digest_name(w: Seq<char>) -> bool {
    digest_name_state(w) >= 1
}

/// Executable test of [`is_digest_name`].
pub fn digest_name(w: &[char]) -> (r: bool)
    ensures
        r == is_digest_name(w@),
{
    let mut s: i8 = 0;
    let mut i: usize = 0;
    while i < w.len()
        invariant
            i <= w.len(),
            s as int == digest_name_state(w@.take(i as int)),
        decreases w.len() - i,
    {
        let c = w[i];
        assert(w@.take(i + 1).drop_last() =~= w@.take(i as int));
        let letter = class_letter(c);
        let digit = decimal_digit(c);
        s = if s == 0 {
            if letter { 1 } else { -1 }
        } else if s == 1 {
            if letter { 1 } else if digit { 2 } else { -1 }
        } else if s == 2 {
            if digit { 2 } else if letter { 3 } else { -1 }
        } else if s == 3 {
            if letter { 3 } else { -1 }
        } else {
            -1
        };
        i = i + 1;
    }
    assert(w@.take(i as int) =~= w@);
    s >= 1
}

/// A length: one or more decimal digits (`\d+`).
pub open spec fn is_length_text(w: Seq<char>) -> bool {
    w.len() > 0 && forall|i: int| 0 <= i < w.len() ==> is_decimal_digit(#[trigger] w[i])
}

/// Executable test of [`is_length_text`].
pub fn length_text(w: &[char]) -> (r: bool)
    ensures
        r == is_length_text(w@),
{
    if w.len() == 0 {
        return false;
    }
    let mut i: usize = 0;
    while i < w.len()
        invariant
            i <= w.len(),
            forall|j: int| 0 <= j < i ==> is_decimal_digit(#[trigger] w@[j]),
        decreases w.len() - i,
    {
        if !decimal_digit(w[i]) {
            return false;
        }
        i = i + 1;
    }
    true
}

/// `s` cut at every `:`; the parts hold no `:`, and there is one more part
/// than there are colons.
pub open spec fn split_colon(s: Seq<char>) -> Seq<Seq<char>>
    decreases s.len(),
{
    if s.len() == 0 {
        seq![Seq::empty()]
    } else {
        let r = split_colon(s.drop_last());
        if s.last() == ':' {
            r.push(Seq::empty())
        } else {
            r.drop_last().push(r.last().push(s.last()))
        }
    }
}

proof fn lemma_split_colon_nonempty(s: Seq<char>)
    ensures
        split_colon(s).len() >= 1,
    decreases s.len(),
{
    if s.len() > 0 {
        lemma_split_colon_nonempty(s.drop_last());
    }
}

/// A text without colons is a single part.
pub proof fn lemma_split_colon_plain(s: Seq<char>)
    requires
        forall|i: int| 0 <= i < s.len() ==> s[i] != ':',
    ensures
        split_colon(s) == seq![s],
    decreases s.len(),
{
    if s.len() > 0 {
        lemma_split_colon_plain(s.drop_last());
        assert(s.drop_last().push(s.last()) =~= s);
    } else {
        assert(s =~= Seq::<char>::empty());
    }
}

/// Cutting at a colon: the parts of `s`, then those of `t`.
pub proof fn lemma_split_colon_join(s: Seq<char>, t: Seq<char>)
    ensures
        split_colon(s + seq![':'] + t) == split_colon(s) + split_colon(t),
    decreases t.len(),
{
    let u = s + seq![':'] + t;
    if t.len() == 0 {
        assert(u.drop_last() =~= s);
        assert(split_colon(t) =~= seq![Seq::<char>::empty()]);
        assert(split_colon(s).push(Seq::<char>::empty()) =~= split_colon(s) + split_colon(t));
    } else {
        lemma_split_colon_join(s, t.drop_last());
        assert(u.drop_last() =~= s + seq![':'] + t.drop_last());
        lemma_split_colon_nonempty(t.drop_last());
        let a = split_colon(s);
        let b = split_colon(t.drop_last());
        if t.last() == ':' {
            assert((a + b).push(Seq::<char>::empty()) =~= a + b.push(Seq::<char>::empty()));
        } else {
            assert((a + b).drop_last().push((a + b).last().push(t.last())) =~= a + b.drop_last().push(
                b.last().push(t.last()),
            ));
        }
    }
}

/// The character sequences held by a vector of character vectors.
pub open spec fn texts(v: Seq<Vec<char>>) -> Seq<Seq<char>> {
    v.map_values(|x: Vec<char>| x@)
}

/// The parts of `s[from..to]` cut at every `:`.
fn split_colon_exec(p: &[char], from: usize, to: usize) -> (r: Vec<Vec<char>>)
    requires
        from <= to <= p@.len(),
    ensures
        texts(r@) == split_colon(p@.subrange(from as int, to as int)),
{
    let mut parts: Vec<Vec<char>> = Vec::new();
    let mut cur: Vec<char> = Vec::new();
    let mut i: usize = from;
    while i < to
        invariant
            from <= i <= to <= p@.len(),
            texts(parts@).push(cur@) == split_colon(p@.subrange(from as int, i as int)),
        decreases to - i,
    {
        let c = p[i];
        let ghost prev = texts(parts@).push(cur@);
        proof {
            assert(p@.subrange(from as int, i + 1).drop_last() =~= p@.subrange(from as int, i as int));
            lemma_split_colon_nonempty(p@.subrange(from as int, i as int));
        }
        if c == ':' {
            let done = cur;
            parts.push(done);
            cur = Vec::new();
            assert(texts(parts@) =~= prev.drop_last().push(prev.last()));
            assert(texts(parts@).push(cur@) =~= prev.push(Seq::empty()));
        } else {
            cur.push(c);
            assert(texts(parts@).push(cur@) =~= prev.drop_last().push(prev.last().push(c)));
        }
        i = i + 1;
    }
    let ghost before = texts(parts@).push(cur@);
    parts.push(cur);
    assert(texts(parts@) =~= before);
    parts
}


/// The optional parts of a hash token, by view.
pub struct HashTokenView {
    pub hash_type: Option<Seq<char>>,
    pub digest_type: Option<Seq<char>>,
    pub length: Option<Seq<char>>,
}

/// The optional parts of a hash token: the hash type before the keyword,
/// the digest type and the length after it.
#[derive(Debug)]
pub struct HashToken {
    pub hash_type: Option<Vec<char>>,
    pub digest_type: Option<Vec<char>>,
    pub length: Option<Vec<char>>,
}

/// The characters of an optional character vector.
pub open spec fn opt_text(o: Option<Vec<char>>) -> Option<Seq<char>> {
    match o {
        Some(v) => Some(v@),
        None => None,
    }
}

impl View for HashToken {
    type V = HashTokenView;

    open spec fn view(&self) -> HashTokenView {
        HashTokenView {
            hash_type: opt_text(self.hash_type),
            digest_type: opt_text(self.digest_type),
            length: opt_text(self.length),
        }
    }
}

/// The parts that follow the optional hash type: the keyword, then an
/// optional digest type, then an optional length.  The digest type is
/// tried first, as the pattern's greedy `?` does.
pub open spec fn parse_after_type(ps: Seq<Seq<char>>) -> Option<(Option<Seq<char>>, Option<Seq<char>>)> {
    if ps.len() == 0 || ps.len() > 3 || !is_hash_keyword(ps[0]) {
        None
    } else if ps.len() == 1 {
        Some((None, None))
    } else if ps.len() == 2 {
        if is_digest_name(ps[1]) {
            Some((Some(ps[1]), None))
        } else if is_length_text(ps[1]) {
            Some((None, Some(ps[1])))
        } else {
            None
        }
    } else if is_digest_name(ps[1]) && is_length_text(ps[2]) {
        Some((Some(ps[1]), Some(ps[2])))
    } else {
        None
    }
}

/// The hash token spelled by the text between `[` and `]`, if it is one.
/// A leading `<hashType>:` is taken whenever the rest then parses, as the
/// greedy optional group of the pattern prefers.
pub open spec fn parse_hash_token(seg: Seq<char>) -> Option<HashTokenView> {
    let ps = split_colon(seg);
    if ps.len() >= 2 && ps[0].len() > 0 && parse_after_type(ps.skip(1)) is Some {
        let t = parse_after_type(ps.skip(1)).unwrap();
        Some(HashTokenView { hash_type: Some(ps[0]), digest_type: t.0, length: t.1 })
    } else {
        match parse_after_type(ps) {
            Some(t) => Some(HashTokenView { hash_type: None, digest_type: t.0, length: t.1 }),
            None => None,
        }
    }
}

fn parse_after_type_exec(parts: &Vec<Vec<char>>, from: usize) -> (r: Option<(Option<Vec<char>>, Option<Vec<char>>)>)
    requires
        from <= parts@.len(),
    ensures
        match r {
            Some(t) => parse_after_type(texts(parts@).skip(from as int)) == Some((opt_text(t.0), opt_text(t.1))),
            None => parse_after_type(texts(parts@).skip(from as int)) is None,
        },
{
    let ghost ps = texts(parts@).skip(from as int);
    let n = parts.len() - from;
    assert(ps.len() == n);
    if n == 0 || n > 3 {
        return None;
    }
    assert(ps[0] == parts@[from as int]@);
    if !hash_keyword(&parts[from]) {
        return None;
    }
    if n == 1 {
        return Some((None, None));
    }
    assert(ps[1] == parts@[from + 1]@);
    let second = &parts[from + 1];
    if n == 2 {
        if digest_name(second) {
            let d = copy_range(second, 0, second.len());
            assert(d@ =~= ps[1]);
            return Some((Some(d), None));
        } else if length_text(second) {
            let l = copy_range(second, 0, second.len());
            assert(l@ =~= ps[1]);
            return Some((None, Some(l)));
        } else {
            return None;
        }
    }
    assert(ps[2] == parts@[from + 2]@);
    let third = &parts[from + 2];
    if digest_name(second) && length_text(third) {
        let d = copy_range(second, 0, second.len());
        let l = copy_range(third, 0, third.len());
        assert(d@ =~= ps[1]);
        assert(l@ =~= ps[2]);
        Some((Some(d), Some(l)))
    } else {
        None
    }
}

/// Parses the text `p[from..to]` as the inside of a hash token.
fn parse_hash_token_exec(p: &[char], from: usize, to: usize) -> (r: Option<HashToken>)
    requires
        from <= to <= p@.len(),
    ensures
        match r {
            Some(t) => parse_hash_token(p@.subrange(from as int, to as int)) == Some(t@),
            None => parse_hash_token(p@.subrange(from as int, to as int)) is None,
        },
{
    let parts = split_colon_exec(p, from, to);
    let ghost ps = texts(parts@);
    if parts.len() >= 2 && parts[0].len() > 0 {
        assert(ps[0] == parts@[0]@);
        match parse_after_type_exec(&parts, 1) {
            Some(t) => {
                let h = copy_range(&parts[0], 0, parts[0].len());
                assert(h@ =~= ps[0]);
                return Some(HashToken { hash_type: Some(h), digest_type: t.0, length: t.1 });
            },
            None => {},
        }
    }
    assert(texts(parts@).skip(0) =~= ps);
    match parse_after_type_exec(&parts, 0) {
        Some(t) => Some(HashToken { hash_type: None, digest_type: t.0, length: t.1 }),
        None => None,
    }
}

/// The index of the first `]` in `p` at or after `from`.
pub open spec fn first_close(p: Seq<char>, from: int) -> Option<int>
    decreases p.len() - from,
{
    if from < 0 || from >= p.len() {
        None
    } else if p[from] == ']' {
        Some(from)
    } else {
        first_close(p, from + 1)
    }
}

pub proof fn lemma_first_close(p: Seq<char>, from: int)
    requires
        0 <= from,
    ensures
        first_close(p, from) matches Some(j) ==> from <= j < p.len() && p[j] == ']'
            && forall|k: int| from <= k < j ==> p[k] != ']',
        first_close(p, from) is None ==> forall|k: int| from <= k < p.len() ==> p[k] != ']',
    decreases p.len() - from,
{
    if from < p.len() && p[from] != ']' {
        lemma_first_close(p, from + 1);
    }
}

/// `j` is the first `]` at or after `from` when no `]` comes between.
pub proof fn lemma_first_close_at(p: Seq<char>, from: int, j: int)
    requires
        0 <= from <= j < p.len(),
        p[j] == ']',
        forall|k: int| from <= k < j ==> p[k] != ']',
    ensures
        first_close(p, from) == Some(j),
    decreases j - from,
{
    if from < j {
        lemma_first_close_at(p, from + 1, j);
    }
}

/// Executable [`first_close`].
fn first_close_exec(p: &[char], from: usize) -> (r: Option<usize>)
    ensures
        match r {
            Some(j) => first_close(p@, from as int) == Some(j as int),
            None => first_close(p@, from as int) is None,
        },
{
    let mut i = from;
    while i < p.len()
        invariant
            from <= i,
            first_close(p@, from as int) == first_close(p@, i as int),
        decreases p.len() - i,
    {
        if p[i] == ']' {
            return Some(i);
        }
        i = i + 1;
    }
    None
}

/// The hash token that starts at index `k` of `p`: from a `[` to the first
/// `]` after it, with its index past the `]`.
pub open spec fn hash_token_at(p: Seq<char>, k: int) -> Option<(int, HashTokenView)> {
    if 0 <= k < p.len() && p[k] == '[' {
        match first_close(p, k + 1) {
            Some(j) => match parse_hash_token(p.subrange(k + 1, j)) {
                Some(t) => Some((j + 1, t)),
                None => None,
            },
            None => None,
        }
    } else {
        None
    }
}

/// Executable [`hash_token_at`].
pub fn hash_token_at_exec(p: &[char], k: usize) -> (r: Option<(usize, HashToken)>)
    ensures
        match r {
            Some((e, t)) => hash_token_at(p@, k as int) == Some((e as int, t@)),
            None => hash_token_at(p@, k as int) is None,
        },
{
    if k >= p.len() || p[k] != '[' {
        return None;
    }
    match first_close_exec(p, k + 1) {
        Some(j) => {
            proof {
                lemma_first_close(p@, k + 1);
            }
            match parse_hash_token_exec(p, k + 1, j) {
                Some(t) => Some((j + 1, t)),
                None => None,
            }
        },
        None => None,
    }
}


/// Why a pattern cannot be used, by view.
pub enum PatternFault {
    UnsupportedToken(Seq<char>),
    UnsupportedHashType(Seq<char>),
    UnsupportedDigestType(Seq<char>),
}

/// Why a pattern cannot be used: it holds a `[...]` token that is no hash
/// token, or a hash token names a hash or digest type that is not
/// implemented.
#[derive(Debug, Clone, PartialEq, Eq)]
pub enum PatternError {
    UnsupportedToken(String),
    UnsupportedHashType(String),
    UnsupportedDigestType(String),
}

impl View for PatternError {
    type V = PatternFault;

    open spec fn view(&self) -> PatternFault {
        match self {
            PatternError::UnsupportedToken(s) => PatternFault::UnsupportedToken(s@),
            PatternError::UnsupportedHashType(s) => PatternFault::UnsupportedHashType(s@),
            PatternError::UnsupportedDigestType(s) => PatternFault::UnsupportedDigestType(s@),
        }
    }
}

/// The view of a text result.
pub open spec fn text_result(r: Result<String, PatternError>) -> Result<Seq<char>, PatternFault> {
    match r {
        Ok(s) => Ok(s@),
        Err(e) => Err(e@),
    }
}

/// Whether every character of `s` is an ASCII digit.
pub open spec fn is_ascii_digits(s: Seq<char>) -> bool {
    forall|i: int| 0 <= i < s.len() ==> '0' <= #[trigger] s[i] && s[i] <= '9'
}

/// The value of a string of ASCII digits, read in base ten.
pub open spec fn decimal_value(s: Seq<char>) -> int
    decreases s.len(),
{
    if s.len() == 0 {
        0
    } else {
        decimal_value(s.drop_last()) * 10 + (s.last() as int - '0' as int)
    }
}

/// The number of characters that a digest is cut to: the length written in
/// the token when it parses as a `usize` (ASCII digits that fit), and 9999
/// (no cut) when the token has no length or it does not parse.
pub open spec fn token_length(l: Option<Seq<char>>) -> int {
    match l {
        Some(s) => if s.len() > 0 && is_ascii_digits(s) && decimal_value(s) <= usize::MAX {
            decimal_value(s)
        } else {
            9999
        },
        None => 9999,
    }
}

proof fn lemma_decimal_value_grows(s: Seq<char>, n: int)
    requires
        is_ascii_digits(s),
        0 <= n <= s.len(),
    ensures
        0 <= decimal_value(s.take(n)) <= decimal_value(s),
    decreases s.len() - n,
{
    if n < s.len() {
        lemma_decimal_value_grows(s, n + 1);
        assert(s.take(n + 1).drop_last() =~= s.take(n));
        assert('0' <= s[n] && s[n] <= '9');
    } else {
        assert(s.take(n) =~= s);
        lemma_decimal_value_nonneg(s);
    }
}

proof fn lemma_decimal_value_nonneg(s: Seq<char>)
    requires
        is_ascii_digits(s),
    ensures
        decimal_value(s) >= 0,
    decreases s.len(),
{
    if s.len() > 0 {
        assert(is_ascii_digits(s.drop_last())) by {
            assert forall|i: int| 0 <= i < s.drop_last().len() implies '0' <= #[trigger] s.drop_last()[i]
                && s.drop_last()[i] <= '9' by {
                assert(s.drop_last()[i] == s[i]);
            }
        }
        lemma_decimal_value_nonneg(s.drop_last());
        assert('0' <= s[s.len() - 1]);
    }
}

/// Executable [`token_length`], the `usize` parse of the length text.
pub fn parse_length(l: &Option<Vec<char>>) -> (r: usize)
    ensures
        r as int == token_length(opt_text(*l)),
{
    let s = match l {
        Some(s) => s,
        None => {
            return 9999;
        },
    };
    assert(opt_text(*l) == Some(s@));
    if s.len() == 0 {
        return 9999;
    }
    let mut i: usize = 0;
    while i < s.len()
        invariant
            i <= s.len(),
            forall|j: int| 0 <= j < i ==> '0' <= #[trigger] s@[j] && s@[j] <= '9',
            opt_text(*l) == Some(s@),
        decreases s.len() - i,
    {
        if !('0' <= s[i] && s[i] <= '9') {
            assert(!is_ascii_digits(s@)) by {
                assert(!('0' <= s@[i as int] && s@[i as int] <= '9'));
            }
            assert(token_length(Some(s@)) == 9999);
            return 9999;
        }
        i = i + 1;
    }
    assert(is_ascii_digits(s@));
    let mut v: usize = 0;
    let mut k: usize = 0;
    while k < s.len()
        invariant
            k <= s.len(),
            is_ascii_digits(s@),
            v as int == decimal_value(s@.take(k as int)),
            opt_text(*l) == Some(s@),
            s@.len() > 0,
        decreases s.len() - k,
    {
        assert(s@.take(k + 1).drop_last() =~= s@.take(k as int));
        assert('0' <= s@[k as int] && s@[k as int] <= '9');
        let d = (s[k] as u32 - '0' as u32) as usize;
        if v > (usize::MAX - d) / 10 {
            proof {
                lemma_decimal_value_grows(s@, k + 1);
                assert(s@.take(k + 1).last() == s@[k as int]);
                assert(d as int == s@[k as int] as int - '0' as int);
                assert(decimal_value(s@.take(k + 1)) == v * 10 + d);
                assert(v * 10 + d > usize::MAX) by (nonlinear_arith)
                    requires
                        v > (usize::MAX - d) / 10,
                        d <= 9,
                ;
            }
            return 9999;
        }
        assert(v * 10 + d <= usize::MAX) by (nonlinear_arith)
            requires
                v <= (usize::MAX - d) / 10,
                d <= 9,
        ;
        v = v * 10 + d;
        k = k + 1;
    }
    assert(s@.take(k as int) =~= s@);
    v
}

pub open spec fn word_sha512() -> Seq<char> {
    seq!['s', 'h', 'a', '5', '1', '2']
}

pub open spec fn word_md5() -> Seq<char> {
    seq!['m', 'd', '5']
}

pub open spec fn word_base64() -> Seq<char> {
    seq!['b', 'a', 's', 'e', '6', '4']
}

pub open spec fn word_hex() -> Seq<char> {
    seq!['h', 'e', 'x']
}

/// The first `length` characters of `e`, or all of them when it is
/// shorter.
pub open spec fn digest_cut(e: Seq<char>, length: int) -> Seq<char> {
    e.take(if length < e.len() { length } else { e.len() as int })
}

/// The digest bytes `bytes` encoded for a digest type and cut to a length:
/// standard padded base64 or lower-case hex; any other digest type is an
/// error.
pub open spec fn encoded_digest(bytes: Seq<u8>, digest_type: Seq<char>, length: int) -> Result<Seq<char>, PatternFault> {
    if digest_type == word_base64() {
        Ok(digest_cut(base64_encoded(bytes), length))
    } else if digest_type == word_hex() {
        Ok(digest_cut(hex_encoded(bytes), length))
    } else {
        Err(PatternFault::UnsupportedDigestType(digest_type))
    }
}

/// The digest of `content` for a hash type, digest type and length: the
/// SHA-512 digest of the UTF-8 bytes of `content`, encoded in base64 or
/// lower-case hex and cut to its first `length` characters.  Any other
/// hash type, then any other digest type, is an error.
pub open spec fn digest_text(
    content: Seq<char>,
    hash_type: Seq<char>,
    digest_type: Seq<char>,
    length: int,
) -> Result<Seq<char>, PatternFault> {
    if hash_type != word_sha512() {
        Err(PatternFault::UnsupportedHashType(hash_type))
    } else {
        encoded_digest(sha512_of(encode_utf8(content)), digest_type, length)
    }
}

/// The first `n` characters of `s`.
fn take_chars(s: &String, n: usize) -> (r: String)
    ensures
        r@ == digest_cut(s@, n as int),
{
    let cs = chars_of(s.as_str());
    let m = if n < cs.len() { n } else { cs.len() };
    let part = copy_range(&cs, 0, m);
    assert(part@ =~= s@.take(m as int));
    string_from_chars(&part)
}

/// Encodes digest bytes for a digest type and cuts the text to `length`
/// characters (see [`encoded_digest`]).
pub fn encode_digest(bytes: &[u8], digest_type: &[char], length: usize) -> (r: Result<String, PatternError>)
    requires
        4 * (bytes@.len() / 3 + 1) <= usize::MAX,
    ensures
        text_result(r) == encoded_digest(bytes@, digest_type@, length as int),
{
    let b64: [char; 6] = ['b', 'a', 's', 'e', '6', '4'];
    let hex: [char; 3] = ['h', 'e', 'x'];
    assert(b64@ == word_base64());
    assert(hex@ == word_hex());
    if chars_eq(digest_type, &b64) {
        let e = base64_standard(bytes);
        Ok(take_chars(&e, length))
    } else if chars_eq(digest_type, &hex) {
        let e = hex_lower(bytes);
        Ok(take_chars(&e, length))
    } else {
        Err(PatternError::UnsupportedDigestType(string_from_chars(digest_type)))
    }
}

/// The length of an encoded digest: the cut length, or the whole
/// encoding (four characters for every started group of three bytes in
/// base64, two per byte in hex) when it is shorter.
pub proof fn lemma_encoded_digest_len(bytes: Seq<u8>, digest_type: Seq<char>, length: int)
    requires
        length >= 0,
    ensures
        encoded_digest(bytes, digest_type, length) matches Ok(d) ==> d.len() == if digest_type
            == word_base64() {
            vstd::math::min(length, (4 * ((bytes.len() + 2) / 3)) as int)
        } else {
            vstd::math::min(length, (2 * bytes.len()) as int)
        },
{
    lemma_base64_len(bytes);
    lemma_hex_decodes(bytes);
}

/// A shorter cut of the same encoding is a prefix of a longer one, and is
/// as long as the cut, or as the encoding when that is shorter.
pub proof fn lemma_digest_cut_prefix(e: Seq<char>, n: int, m: int)
    requires
        0 <= n <= m,
    ensures
        digest_cut(e, n).len() == vstd::math::min(n, e.len() as int),
        digest_cut(e, n).is_prefix_of(digest_cut(e, m)),
{
}

/// Digest of `content` for the given hash type, digest type and length
/// (see [`digest_text`]).  A digest is made only for `sha512`, and it is
/// 64 bytes long, so a base64 digest has at most 88 characters and a hex
/// digest at most 128.
pub fn hash_digest(content: &str, hash_type: &[char], digest_type: &[char], length: usize) -> (r: Result<String, PatternError>)
    ensures
        text_result(r) == digest_text(content@, hash_type@, digest_type@, length as int),
        hash_type@ == word_sha512() ==> sha512_of(encode_utf8(content@)).len() == 64,
        r matches Ok(d) ==> d@.len() == if digest_type@ == word_base64() {
            vstd::math::min(length as int, 88)
        } else {
            vstd::math::min(length as int, 128)
        },
{
    let sha: [char; 6] = ['s', 'h', 'a', '5', '1', '2'];
    assert(sha@ == word_sha512());
    if !chars_eq(hash_type, &sha) {
        return Err(PatternError::UnsupportedHashType(string_from_chars(hash_type)));
    }
    let bytes = sha512(content.as_bytes());
    proof {
        lemma_encoded_digest_len(bytes@, digest_type@, length as int);
    }
    encode_digest(&bytes, digest_type, length)
}

/// The digest that a hash token stands for: its hash type defaults to
/// `md5` and its digest type to `hex`.
pub open spec fn token_digest(t: HashTokenView, content: Seq<char>) -> Result<Seq<char>, PatternFault> {
    let h = match t.hash_type { Some(h) => h, None => word_md5() };
    let d = match t.digest_type { Some(d) => d, None => word_hex() };
    digest_text(content, h, d, token_length(t.length))
}

fn token_digest_exec(t: &HashToken, content: &str) -> (r: Result<String, PatternError>)
    ensures
        text_result(r) == token_digest(t@, content@),
        r is Ok ==> sha512_of(encode_utf8(content@)).len() == 64,
{
    let md5: [char; 3] = ['m', 'd', '5'];
    let hex: [char; 3] = ['h', 'e', 'x'];
    assert(md5@ == word_md5());
    assert(hex@ == word_hex());
    let length = parse_length(&t.length);
    let h: &[char] = match &t.hash_type {
        Some(h) => h.as_slice(),
        None => &md5,
    };
    let d: &[char] = match &t.digest_type {
        Some(d) => d.as_slice(),
        None => &hex,
    };
    hash_digest(content, h, d, length)
}

/// A hash token without a digest type is read as digest type `hex`, and
/// one without a hash type as hash type `md5`, whatever else it holds.
pub proof fn lemma_token_defaults(
    hash_type: Option<Seq<char>>,
    digest_type: Option<Seq<char>>,
    length: Option<Seq<char>>,
    content: Seq<char>,
)
    ensures
        token_digest(HashTokenView { hash_type, digest_type: None, length }, content) == token_digest(
            HashTokenView { hash_type, digest_type: Some(word_hex()), length },
            content,
        ),
        token_digest(HashTokenView { hash_type: None, digest_type, length }, content) == token_digest(
            HashTokenView { hash_type: Some(word_md5()), digest_type, length },
            content,
        ),
{
}

/// A `sha512` token with a hex digest type gives the lower-case hex SHA-512
/// digest of the content, cut to the token's length; so does one with no
/// digest type.
pub proof fn lemma_sha512_hex_token(length: Option<Seq<char>>, content: Seq<char>)
    ensures
        token_digest(
            HashTokenView { hash_type: Some(word_sha512()), digest_type: None, length },
            content,
        ) == Ok::<Seq<char>, PatternFault>(
            digest_cut(hex_encoded(sha512_of(encode_utf8(content))), token_length(length)),
        ),
        token_digest(
            HashTokenView { hash_type: Some(word_sha512()), digest_type: Some(word_hex()), length },
            content,
        ) == Ok::<Seq<char>, PatternFault>(
            digest_cut(hex_encoded(sha512_of(encode_utf8(content))), token_length(length)),
        ),
{
    assert(word_hex() != word_base64());
}

pub proof fn lemma_hash_token_end(p: Seq<char>, k: int)
    ensures
        hash_token_at(p, k) matches Some((e, t)) ==> k + 2 <= e <= p.len(),
{
    if 0 <= k < p.len() && p[k] == '[' {
        lemma_first_close(p, k + 1);
    }
}

/// Prefixes `o` to a successful text result.
pub open spec fn prefixed(o: Seq<char>, r: Result<Seq<char>, PatternFault>) -> Result<Seq<char>, PatternFault> {
    match r {
        Ok(x) => Ok(o + x),
        Err(e) => Err(e),
    }
}

/// `p[i..]` with each hash token replaced by its digest, scanning from the
/// left: at each index, a hash token that starts there is replaced and the
/// scan goes on after it; otherwise the character is kept.  The first token
/// whose digest fails makes the result that error.
pub open spec fn interpolated_from(p: Seq<char>, i: int, content: Seq<char>) -> Result<Seq<char>, PatternFault>
    decreases p.len() - i,
{
    if i < 0 || i >= p.len() {
        Ok(Seq::empty())
    } else {
        match hash_token_at(p, i) {
            Some((e, t)) => {
                proof {
                    lemma_hash_token_end(p, i);
                }
                match token_digest(t, content) {
                    Ok(d) => prefixed(d, interpolated_from(p, e, content)),
                    Err(x) => Err(x),
                }
            },
            None => prefixed(seq![p[i]], interpolated_from(p, i + 1, content)),
        }
    }
}

/// `pattern` with every hash token replaced by the digest of `content`.
pub open spec fn interpolated(pattern: Seq<char>, content: Seq<char>) -> Result<Seq<char>, PatternFault> {
    interpolated_from(pattern, 0, content)
}

proof fn lemma_prefixed_assoc(a: Seq<char>, b: Seq<char>, r: Result<Seq<char>, PatternFault>)
    ensures
        prefixed(a, prefixed(b, r)) == prefixed(a + b, r),
{
    match r {
        Ok(x) => {
            assert(a + (b + x) =~= (a + b) + x);
        },
        Err(_) => {},
    }
}

/// Replaces every hash token of `pattern` by the digest of `content`, as
/// the token asks (hash type, digest type, length).
///
/// A digest is made only with SHA-512, whose digests are 64 bytes long; so
/// when a pattern that holds a hash token gives an id, that length holds
/// of the digest of `content`.  With the default pattern the id is the
/// first six characters of the base64 digest.
pub fn interpolate_pattern(pattern: &str, content: &str) -> (r: Result<String, PatternError>)
    ensures
        text_result(r) == interpolated(pattern@, content@),
        r is Ok && (exists|k: int| 0 <= k < pattern@.len() && #[trigger] hash_token_at(pattern@, k) is Some)
            ==> sha512_of(encode_utf8(content@)).len() == 64,
        pattern@ == crate::config::default_pattern() ==> (r matches Ok(id) && id@ == base64_encoded(
            sha512_of(encode_utf8(content@)),
        ).take(6) && id@.len() == 6),
{
    let p = chars_of(pattern);
    let mut out: Vec<char> = Vec::new();
    let mut i: usize = 0;
    let ghost mut hit = false;
    while i < p.len()
        invariant
            i <= p.len(),
            p@ == pattern@,
            interpolated(p@, content@) == prefixed(out@, interpolated_from(p@, i as int, content@)),
            hit ==> sha512_of(encode_utf8(content@)).len() == 64,
            (exists|k: int| 0 <= k < p@.len() && #[trigger] hash_token_at(p@, k) is Some) ==> hit
                || exists|k: int| i <= k < p@.len() && #[trigger] hash_token_at(p@, k) is Some,
        decreases p.len() - i,
    {
        proof {
            lemma_hash_token_end(p@, i as int);
        }
        match hash_token_at_exec(&p, i) {
            Some((e, t)) => {
                match token_digest_exec(&t, content) {
                    Ok(d) => {
                        let dc = chars_of(d.as_str());
                        proof {
                            lemma_prefixed_assoc(out@, dc@, interpolated_from(p@, e as int, content@));
                            hit = true;
                        }
                        extend_chars(&mut out, &dc);
                        i = e;
                    },
                    Err(x) => {
                        proof {
                            if pattern@ == crate::config::default_pattern() {
                                crate::config::lemma_default_pattern_digest(content@);
                            }
                        }
                        return Err(x);
                    },
                }
            },
            None => {
                proof {
                    lemma_prefixed_assoc(out@, seq![p@[i as int]], interpolated_from(p@, i + 1, content@));
                    assert(out@.push(p@[i as int]) =~= out@ + seq![p@[i as int]]);
                    if !hit && exists|k: int| 0 <= k < p@.len() && #[trigger] hash_token_at(p@, k) is Some {
                        let k = choose|k: int| i <= k < p@.len() && #[trigger] hash_token_at(p@, k) is Some;
                        assert(k != i);
                        assert(i + 1 <= k);
                    }
                }
                out.push(p[i]);
                i = i + 1;
            },
        }
    }
    assert(out@ + Seq::<char>::empty() =~= out@);
    proof {
        if pattern@ == crate::config::default_pattern() {
            assert(crate::config::default_pattern() =~= base64_id_pattern(Some(seq!['6'])));
            lemma_base64_id_token(Some(seq!['6']));
            assert(hash_token_at(p@, 0) is Some);
            crate::config::lemma_default_pattern_id(content@);
        }
    }
    Ok(string_from_chars(&out))
}

/// The pattern `[sha512:contenthash:base64]`, with `:<length>` before the
/// `]` when a length text is given.
pub open spec fn base64_id_pattern(length: Option<Seq<char>>) -> Seq<char> {
    let head = seq!['[', 's', 'h', 'a', '5', '1', '2', ':'] + word_contenthash() + seq![':'] + word_base64();
    match length {
        Some(d) => head + seq![':'] + d + seq![']'],
        None => head + seq![']'],
    }
}

/// The pattern [`base64_id_pattern`] is one hash token: SHA-512, base64,
/// and the length text given, if any.
pub proof fn lemma_base64_id_token(length: Option<Seq<char>>)
    requires
        length matches Some(d) ==> d.len() > 0 && is_ascii_digits(d),
    ensures
        hash_token_at(base64_id_pattern(length), 0) == Some((
            base64_id_pattern(length).len() as int,
            HashTokenView { hash_type: Some(word_sha512()), digest_type: Some(word_base64()), length },
        )),
{
    let p = base64_id_pattern(length);
    let w1 = word_sha512();
    let w2 = word_contenthash();
    let w3 = word_base64();
    let head3 = w1 + seq![':'] + w2 + seq![':'] + w3;
    lemma_split_colon_plain(w1);
    lemma_split_colon_plain(w2);
    lemma_split_colon_plain(w3);
    lemma_split_colon_join(w1, w2);
    lemma_split_colon_join(w1 + seq![':'] + w2, w3);
    assert(is_hash_keyword(w2));
    assert(is_digest_name(w3)) by {
        reveal_with_fuel(digest_name_state, 7);
        assert(w3.drop_last() =~= seq!['b', 'a', 's', 'e', '6']);
        assert(w3.drop_last().drop_last() =~= seq!['b', 'a', 's', 'e']);
        assert(w3.drop_last().drop_last().drop_last() =~= seq!['b', 'a', 's']);
        assert(seq!['b', 'a', 's'].drop_last() =~= seq!['b', 'a']);
        assert(seq!['b', 'a'].drop_last() =~= seq!['b']);
        assert(seq!['b'].drop_last() =~= Seq::<char>::empty());
    }
    match length {
        Some(d) => {
            let seg = head3 + seq![':'] + d;
            assert(p =~= seq!['['] + seg + seq![']']);
            assert forall|k: int| 1 <= k < p.len() - 1 implies p[k] != ']' by {
                assert(p[k] == seg[k - 1]);
                if k - 1 >= head3.len() + 1 {
                    assert(seg[k - 1] == d[k - 1 - head3.len() - 1]);
                }
            }
            lemma_first_close_at(p, 1, p.len() - 1);
            assert(p.subrange(1, p.len() - 1) =~= seg);
            assert forall|i: int| 0 <= i < d.len() implies d[i] != ':' by {
                assert('0' <= d[i] && d[i] <= '9');
            }
            lemma_split_colon_plain(d);
            lemma_split_colon_join(head3, d);
            let ps = split_colon(seg);
            assert(ps =~= seq![w1, w2, w3, d]);
            assert(ps.skip(1) =~= seq![w2, w3, d]);
            assert(is_length_text(d)) by {
                assert forall|i: int| 0 <= i < d.len() implies is_decimal_digit(#[trigger] d[i]) by {
                    assert('0' <= d[i] && d[i] <= '9');
                }
            }
        },
        None => {
            assert(p =~= seq!['['] + head3 + seq![']']);
            lemma_first_close_at(p, 1, p.len() - 1);
            assert(p.subrange(1, p.len() - 1) =~= head3);
            let ps = split_colon(head3);
            assert(ps =~= seq![w1, w2, w3]);
            assert(ps.skip(1) =~= seq![w2, w3]);
        },
    }
}

/// With the pattern [`base64_id_pattern`], the id of a content is the
/// standard base64 encoding of the SHA-512 digest of its UTF-8 bytes, cut
/// to the length given (or not cut, for no length).
pub proof fn lemma_base64_id(length: Option<Seq<char>>, content: Seq<char>)
    requires
        length matches Some(d) ==> d.len() > 0 && is_ascii_digits(d),
    ensures
        interpolated(base64_id_pattern(length), content) == Ok::<Seq<char>, PatternFault>(
            digest_cut(base64_encoded(sha512_of(encode_utf8(content))), token_length(length)),
        ),
{
    let p = base64_id_pattern(length);
    lemma_base64_id_token(length);
    let cut = digest_cut(base64_encoded(sha512_of(encode_utf8(content))), token_length(length));
    assert(interpolated_from(p, p.len() as int, content) == Ok::<Seq<char>, PatternFault>(Seq::empty()));
    assert(cut + Seq::<char>::empty() =~= cut);
}

/// A longer length in the pattern gives a longer cut of the same id: the
/// id for the shorter length is a prefix of the id for the longer one and
/// is as long as that length, or as the whole encoding (88 characters for
/// a 64-byte digest) when that is shorter.
pub proof fn lemma_base64_id_length(short: Seq<char>, long: Seq<char>, content: Seq<char>)
    requires
        short.len() > 0 && is_ascii_digits(short),
        long.len() > 0 && is_ascii_digits(long),
        decimal_value(short) <= decimal_value(long) <= usize::MAX,
    ensures
        interpolated(base64_id_pattern(Some(short)), content) matches Ok(a)
            && interpolated(base64_id_pattern(Some(long)), content) matches Ok(b)
            && a.is_prefix_of(b)
            && a.len() == vstd::math::min(
                decimal_value(short),
                base64_encoded(sha512_of(encode_utf8(content))).len() as int,
            ),
        sha512_of(encode_utf8(content)).len() == 64 ==> base64_encoded(
            sha512_of(encode_utf8(content)),
        ).len() == 88,
{
    lemma_base64_id(Some(short), content);
    lemma_base64_id(Some(long), content);
    lemma_decimal_value_nonneg(short);
    let e = base64_encoded(sha512_of(encode_utf8(content)));
    lemma_digest_cut_prefix(e, decimal_value(short), decimal_value(long));
    lemma_base64_len(sha512_of(encode_utf8(content)));
}

/// With the pattern `[sha512:contenthash:base64]` (no length) the id is the
/// whole padded base64 encoding of the 64-byte digest: 88 characters, the
/// last two of them `=`.
pub proof fn lemma_base64_id_uncut(content: Seq<char>)
    requires
        sha512_of(encode_utf8(content)).len() == 64,
    ensures
        interpolated(base64_id_pattern(None), content) matches Ok(id) && id == base64_encoded(
            sha512_of(encode_utf8(content)),
        ) && id.len() == 88 && id[86] == '=' && id[87] == '=',
{
    let bytes = sha512_of(encode_utf8(content));
    lemma_base64_id(None, content);
    lemma_base64_len(bytes);
    crate::digest::lemma_base64_two_pads(bytes);
    assert(digest_cut(base64_encoded(bytes), 9999) =~= base64_encoded(bytes));
}

/// A text that does not start with a letter is no digest type.
proof fn lemma_digest_state_dead(w: Seq<char>)
    requires
        w.len() > 0,
        !is_class_letter(w[0]),
    ensures
        digest_name_state(w) == -1,
    decreases w.len(),
{
    if w.len() > 1 {
        assert(w.drop_last()[0] == w[0]);
        lemma_digest_state_dead(w.drop_last());
    } else {
        assert(w.drop_last() =~= Seq::<char>::empty());
        assert(digest_name_state(w.drop_last()) == 0);
        assert(w.last() == w[0]);
    }
}

/// The pattern `[sha512:contenthash:<length>]`, or, when `explicit` holds,
/// `[sha512:contenthash:hex:<length>]`.
pub open spec fn hex_id_pattern(explicit: bool, length: Seq<char>) -> Seq<char> {
    let head = seq!['[', 's', 'h', 'a', '5', '1', '2', ':'] + word_contenthash();
    if explicit {
        head + seq![':'] + word_hex() + seq![':'] + length + seq![']']
    } else {
        head + seq![':'] + length + seq![']']
    }
}

proof fn lemma_hex_id_words(length: Seq<char>)
    requires
        length.len() > 0 && is_ascii_digits(length),
    ensures
        split_colon(word_sha512()) == seq![word_sha512()],
        split_colon(word_contenthash()) == seq![word_contenthash()],
        split_colon(word_hex()) == seq![word_hex()],
        split_colon(length) == seq![length],
        forall|i: int| 0 <= i < length.len() ==> length[i] != ']',
        is_hash_keyword(word_contenthash()),
        is_length_text(length),
        is_digest_name(word_hex()),
        !is_digest_name(length),
{
    let d = length;
    lemma_split_colon_plain(word_sha512());
    lemma_split_colon_plain(word_contenthash());
    lemma_split_colon_plain(word_hex());
    assert forall|i: int| 0 <= i < d.len() implies d[i] != ':' && d[i] != ']' by {
        assert('0' <= d[i] && d[i] <= '9');
    }
    lemma_split_colon_plain(d);
    assert(is_length_text(d)) by {
        assert forall|i: int| 0 <= i < d.len() implies is_decimal_digit(#[trigger] d[i]) by {
            assert('0' <= d[i] && d[i] <= '9');
        }
    }
    let w3 = word_hex();
    assert(is_digest_name(w3)) by {
        reveal_with_fuel(digest_name_state, 4);
        assert(w3.drop_last() =~= seq!['h', 'e']);
        assert(seq!['h', 'e'].drop_last() =~= seq!['h']);
        assert(seq!['h'].drop_last() =~= Seq::<char>::empty());
    }
    assert('0' <= d[0] && d[0] <= '9');
    lemma_digest_state_dead(d);
}

proof fn lemma_hex_id_token_short(length: Seq<char>)
    requires
        length.len() > 0 && is_ascii_digits(length),
    ensures
        hash_token_at(hex_id_pattern(false, length), 0) == Some((
            hex_id_pattern(false, length).len() as int,
            HashTokenView { hash_type: Some(word_sha512()), digest_type: None, length: Some(length) },
        )),
{
    lemma_hex_id_words(length);
    let w1 = word_sha512();
    let w2 = word_contenthash();
    let d = length;
    let h2 = w1 + seq![':'] + w2;
    let seg1 = h2 + seq![':'] + d;
    let p1 = hex_id_pattern(false, length);
    assert(p1 =~= seq!['['] + seg1 + seq![']']);
    assert forall|k: int| 1 <= k < p1.len() - 1 implies p1[k] != ']' by {
        assert(p1[k] == seg1[k - 1]);
        if k - 1 >= h2.len() + 1 {
            assert(seg1[k - 1] == d[k - 1 - h2.len() - 1]);
        }
    }
    lemma_first_close_at(p1, 1, p1.len() - 1);
    assert(p1.subrange(1, p1.len() - 1) =~= seg1);
    lemma_split_colon_join(w1, w2);
    lemma_split_colon_join(h2, d);
    assert(split_colon(seg1) =~= seq![w1, w2, d]);
    assert(split_colon(seg1).skip(1) =~= seq![w2, d]);
}

proof fn lemma_hex_id_token_long(length: Seq<char>)
    requires
        length.len() > 0 && is_ascii_digits(length),
    ensures
        hash_token_at(hex_id_pattern(true, length), 0) == Some((
            hex_id_pattern(true, length).len() as int,
            HashTokenView {
                hash_type: Some(word_sha512()),
                digest_type: Some(word_hex()),
                length: Some(length),
            },
        )),
{
    lemma_hex_id_words(length);
    let w1 = word_sha512();
    let w2 = word_contenthash();
    let w3 = word_hex();
    let d = length;
    let h2 = w1 + seq![':'] + w2;
    let h3 = h2 + seq![':'] + w3;
    let seg2 = h3 + seq![':'] + d;
    let p2 = hex_id_pattern(true, length);
    assert(p2 =~= seq!['['] + seg2 + seq![']']);
    assert forall|k: int| 1 <= k < p2.len() - 1 implies p2[k] != ']' by {
        assert(p2[k] == seg2[k - 1]);
        if k - 1 >= h3.len() + 1 {
            assert(seg2[k - 1] == d[k - 1 - h3.len() - 1]);
        }
    }
    lemma_first_close_at(p2, 1, p2.len() - 1);
    assert(p2.subrange(1, p2.len() - 1) =~= seg2);
    lemma_split_colon_join(w1, w2);
    lemma_split_colon_join(h2, w3);
    lemma_split_colon_join(h3, d);
    assert(split_colon(seg2) =~= seq![w1, w2, w3, d]);
    assert(split_colon(seg2).skip(1) =~= seq![w2, w3, d]);
}

/// With a length and no digest type, a `sha512` token gives the hex digest,
/// just as the same token with `hex` written out: both patterns give the
/// lower-case hex SHA-512 digest of the content cut to the length.
pub proof fn lemma_missing_digest_type_is_hex(length: Seq<char>, content: Seq<char>)
    requires
        length.len() > 0 && is_ascii_digits(length),
    ensures
        interpolated(hex_id_pattern(false, length), content) == interpolated(
            hex_id_pattern(true, length),
            content,
        ),
        interpolated(hex_id_pattern(false, length), content) == Ok::<Seq<char>, PatternFault>(
            digest_cut(hex_encoded(sha512_of(encode_utf8(content))), token_length(Some(length))),
        ),
{
    let p1 = hex_id_pattern(false, length);
    let p2 = hex_id_pattern(true, length);
    lemma_hex_id_token_short(length);
    lemma_hex_id_token_long(length);
    lemma_sha512_hex_token(Some(length), content);
    let cut = digest_cut(hex_encoded(sha512_of(encode_utf8(content))), token_length(Some(length)));
    assert(interpolated_from(p1, p1.len() as int, content) == Ok::<Seq<char>, PatternFault>(Seq::empty()));
    assert(interpolated_from(p2, p2.len() as int, content) == Ok::<Seq<char>, PatternFault>(Seq::empty()));
    assert(cut + Seq::<char>::empty() =~= cut);
}

/// Whether a hash token starts somewhere in `p[i..j]`, as an unanchored
/// match of the hash-token pattern inside the bracket group `p[i..=j]`.
pub open spec fn group_has_hash_token(p: Seq<char>, i: int, j: int) -> bool {
    exists|k: int| i <= k < j && #[trigger] hash_token_at(p, k) is Some
}

/// The first bracket group of `p[i..]` (from a `[` to the first `]` after
/// it, scanning from the left) that holds no hash token.
pub open spec fn unsupported_from(p: Seq<char>, i: int) -> Option<Seq<char>>
    decreases p.len() - i,
{
    if i < 0 || i >= p.len() {
        None
    } else if p[i] == '[' && first_close(p, i + 1) is Some {
        let j = first_close(p, i + 1).unwrap();
        proof {
            lemma_first_close(p, i + 1);
        }
        if group_has_hash_token(p, i, j) {
            unsupported_from(p, j + 1)
        } else {
            Some(p.subrange(i, j + 1))
        }
    } else {
        unsupported_from(p, i + 1)
    }
}

/// The first bracket group of `pattern` that is not a hash token.
pub open spec fn first_unsupported_token(pattern: Seq<char>) -> Option<Seq<char>> {
    unsupported_from(pattern, 0)
}

/// Rejects a pattern that holds a `[...]` group other than a hash token:
/// `Err` names the first such group, and `Ok` means there is none.
pub fn validate_pattern(pattern: &str) -> (r: Result<(), PatternError>)
    ensures
        match r {
            Ok(()) => first_unsupported_token(pattern@) is None,
            Err(e) => first_unsupported_token(pattern@) matches Some(t)
                && e@ == PatternFault::UnsupportedToken(t),
        },
{
    let p = chars_of(pattern);
    let mut i: usize = 0;
    while i < p.len()
        invariant
            i <= p.len(),
            p@ == pattern@,
            first_unsupported_token(p@) == unsupported_from(p@, i as int),
        decreases p.len() - i,
    {
        if p[i] == '[' {
            match first_close_exec(&p, i + 1) {
                Some(j) => {
                    proof {
                        lemma_first_close(p@, i + 1);
                    }
                    let mut found = false;
                    let mut k = i;
                    while k < j
                        invariant
                            i <= k <= j < p@.len(),
                            !found ==> forall|m: int| i <= m < k ==> #[trigger] hash_token_at(p@, m) is None,
                            found ==> group_has_hash_token(p@, i as int, j as int),
                        decreases j - k,
                    {
                        if !found {
                            if hash_token_at_exec(&p, k).is_some() {
                                found = true;
                            }
                        }
                        k = k + 1;
                    }
                    if found {
                        i = j + 1;
                    } else {
                        let t = copy_range(&p, i, j + 1);
                        return Err(PatternError::UnsupportedToken(string_from_chars(&t)));
                    }
                },
                None => {
                    i = i + 1;
                },
            }
        } else {
            i = i + 1;
        }
    }
    Ok(())
}

proof fn lemma_plain_from(p: Seq<char>, i: int, content: Seq<char>)
    requires
        0 <= i <= p.len(),
        forall|k: int| 0 <= k < p.len() ==> p[k] != '[',
    ensures
        interpolated_from(p, i, content) == Ok::<Seq<char>, PatternFault>(p.skip(i)),
    decreases p.len() - i,
{
    if i < p.len() {
        lemma_plain_from(p, i + 1, content);
        assert(seq![p[i]] + p.skip(i + 1) =~= p.skip(i));
    } else {
        assert(p.skip(i) =~= Seq::<char>::empty());
    }
}

/// A pattern without `[` holds no token: interpolation gives it back
/// unchanged, and validation accepts it.
pub proof fn lemma_plain_pattern(p: Seq<char>, content: Seq<char>)
    requires
        forall|k: int| 0 <= k < p.len() ==> p[k] != '[',
    ensures
        interpolated(p, content) == Ok::<Seq<char>, PatternFault>(p),
        first_unsupported_token(p) is None,
{
    lemma_plain_from(p, 0, content);
    assert(p.skip(0) =~= p);
    lemma_plain_valid_from(p, 0);
}

proof fn lemma_plain_valid_from(p: Seq<char>, i: int)
    requires
        0 <= i <= p.len(),
        forall|k: int| 0 <= k < p.len() ==> p[k] != '[',
    ensures
        unsupported_from(p, i) is None,
    decreases p.len() - i,
{
    if i < p.len() {
        lemma_plain_valid_from(p, i + 1);
    }
}

} // verus!
