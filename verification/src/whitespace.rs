//! Whitespace normalization for extracted messages: surrounding whitespace
//! is trimmed and every run of whitespace becomes a single space.

use vstd::prelude::*;
use crate::text::{chars_of, string_from_chars};

verus! {

/// The Unicode `White_Space` property (PropList.txt), the class of
/// characters that `char::is_whitespace` accepts.
pub open spec fn is_white_space(c: char) -> bool {
    let u = c as u32;
    ||| 0x09 <= u && u <= 0x0D
    ||| u == 0x20
    ||| u == 0x85
    ||| u == 0xA0
    ||| u == 0x1680
    ||| 0x2000 <= u && u <= 0x200A
    ||| u == 0x2028
    ||| u == 0x2029
    ||| u == 0x202F
    ||| u == 0x205F
    ||| u == 0x3000
}

/// Executable test of [`is_white_space`].
pub fn white_space(c: char) -> (r: bool)
    ensures
        r == is_white_space(c),
{
    let u = c as u32;
    (0x09 <= u && u <= 0x0D) || u == 0x20 || u == 0x85 || u == 0xA0 || u == 0x1680
        || (0x2000 <= u && u <= 0x200A) || u == 0x2028 || u == 0x2029 || u == 0x202F
        || u == 0x205F || u == 0x3000
}

/// The normalized form of `s`, read from left to right: whitespace is
/// dropped, a character that continues a word is appended, and a character
/// that starts a word after whitespace is appended after one space unless
/// it starts the first word.
pub open spec fn normalized(s: Seq<char>) -> Seq<char>
    decreases s.len(),
{
    if s.len() == 0 {
        Seq::empty()
    } else {
        let prev = normalized(s.drop_last());
        let c = s.last();
        if is_white_space(c) {
            prev
        } else if prev.len() == 0 || !is_white_space(s[s.len() - 2]) {
            prev.push(c)
        } else {
            prev.push(' ').push(c)
        }
    }
}

/// A string in normal form: it neither starts nor ends with a space, holds
/// no two spaces in a row, and holds no whitespace but the space.
pub open spec fn is_normal(t: Seq<char>) -> bool {
    &&& forall|i: int| 0 <= i < t.len() && is_white_space(#[trigger] t[i]) ==> t[i] == ' '
    &&& t.len() > 0 ==> t[0] != ' ' && t[t.len() - 1] != ' '
    &&& forall|i: int| 0 <= i < t.len() - 1 && #[trigger] t[i] == ' ' ==> t[i + 1] != ' '
}

/// Trims leading and trailing whitespace and collapses every run of
/// whitespace into a single space: the words of `s`, joined by `' '`.
pub fn normalize_whitespace(s: &str) -> (r: String)
    ensures
        r@ == normalized(s@),
        is_normal(r@),
        word_chars(r@) == word_chars(s@),
{
    proof {
        lemma_normalized_is_normal(s@);
        lemma_normalized_keeps_words(s@);
    }
    let cs = chars_of(s);
    let mut out: Vec<char> = Vec::new();
    let mut i: usize = 0;
    while i < cs.len()
        invariant
            i <= cs.len(),
            cs@ == s@,
            out@ == normalized(cs@.take(i as int)),
        decreases cs.len() - i,
    {
        let c = cs[i];
        let ghost p = cs@.take(i as int);
        assert(cs@.take(i + 1).drop_last() =~= p);
        if white_space(c) {
        } else if out.len() == 0 || !white_space(cs[i - 1]) {
            out.push(c);
        } else {
            out.push(' ');
            out.push(c);
        }
        i = i + 1;
    }
    assert(cs@.take(i as int) =~= cs@);
    string_from_chars(&out)
}

/// Normalized text is in normal form.
pub proof fn lemma_normalized_is_normal(s: Seq<char>)
    ensures
        is_normal(normalized(s)),
        normalized(s).len() > 0 ==> !is_white_space(normalized(s).last()),
    decreases s.len(),
{
    if s.len() > 0 {
        lemma_normalized_is_normal(s.drop_last());
        let prev = normalized(s.drop_last());
        let r = normalized(s);
        assert forall|i: int| 0 <= i < r.len() && is_white_space(#[trigger] r[i]) implies r[i]
            == ' ' by {
            if i < prev.len() {
                assert(r[i] == prev[i]);
            }
        }
        assert forall|i: int| 0 <= i < r.len() - 1 && #[trigger] r[i] == ' ' implies r[i + 1]
            != ' ' by {
            if i + 1 < prev.len() {
                assert(r[i] == prev[i]);
                assert(r[i + 1] == prev[i + 1]);
            }
        }
    }
}

/// The non-whitespace characters of `s`, in order.
pub open spec fn word_chars(s: Seq<char>) -> Seq<char> {
    s.filter(|c: char| !is_white_space(c))
}

/// Normalization keeps every non-whitespace character, in order.
pub proof fn lemma_normalized_keeps_words(s: Seq<char>)
    ensures
        word_chars(normalized(s)) == word_chars(s),
    decreases s.len(),
{
    reveal(Seq::filter);
    if s.len() > 0 {
        lemma_normalized_keeps_words(s.drop_last());
        let prev = normalized(s.drop_last());
        let c = s.last();
        if !is_white_space(c) {
            if prev.len() == 0 || !is_white_space(s[s.len() - 2]) {
                assert(prev.push(c).drop_last() =~= prev);
                assert(word_chars(prev.push(c)) == word_chars(prev).push(c));
            } else {
                assert(prev.push(' ').push(c).drop_last() =~= prev.push(' '));
                assert(prev.push(' ').drop_last() =~= prev);
                assert(is_white_space(' '));
                assert(word_chars(prev.push(' ')) == word_chars(prev));
                assert(word_chars(prev.push(' ').push(c)) == word_chars(prev).push(c));
            }
        }
    }
}

/// What normalization does to a prefix of a normal string `t`: the prefix
/// itself, less a trailing space.
proof fn lemma_normal_prefix(t: Seq<char>, n: int)
    requires
        is_normal(t),
        0 <= n <= t.len(),
    ensures
        n > 0 && t[n - 1] == ' ' ==> normalized(t.take(n)) == t.take(n - 1),
        !(n > 0 && t[n - 1] == ' ') ==> normalized(t.take(n)) == t.take(n),
    decreases n,
{
    if n > 0 {
        lemma_normal_prefix(t, n - 1);
        let p = t.take(n);
        assert(p.drop_last() =~= t.take(n - 1));
        let c = t[n - 1];
        assert(p.last() == c);
        if c == ' ' {
            assert(is_white_space(' '));
            assert(n - 1 > 0);
            assert(t[n - 2] != ' ');
        } else if is_white_space(c) {
        } else {
            if n >= 2 && t[n - 2] == ' ' {
                assert(is_white_space(t[n - 2]));
                assert(n - 2 > 0);
                assert(t.take(n - 2).len() > 0);
                assert(t.take(n - 1) =~= t.take(n - 2).push(' '));
                assert(t.take(n) =~= t.take(n - 2).push(' ').push(c));
            } else {
                assert(t.take(n) =~= t.take(n - 1).push(c));
                if n >= 2 {
                    assert(!is_white_space(t[n - 2]));
                }
            }
        }
    }
}

/// Normalizing a normal string leaves it unchanged.
pub proof fn lemma_normal_fixed(t: Seq<char>)
    requires
        is_normal(t),
    ensures
        normalized(t) == t,
{
    lemma_normal_prefix(t, t.len() as int);
    assert(t.take(t.len() as int) =~= t);
}

/// Normalization is idempotent: normalizing twice is normalizing once.
pub proof fn lemma_normalize_idempotent(s: Seq<char>)
    ensures
        normalized(normalized(s)) == normalized(s),
{
    lemma_normalized_is_normal(s);
    lemma_normal_fixed(normalized(s));
}

/// Whether every character of `w` is whitespace.
pub open spec fn all_white_space(w: Seq<char>) -> bool {
    forall|i: int| 0 <= i < w.len() ==> is_white_space(#[trigger] w[i])
}

/// Whether `v` is a word: non-empty, without whitespace.
pub open spec fn is_word(v: Seq<char>) -> bool {
    &&& v.len() > 0
    &&& forall|i: int| 0 <= i < v.len() ==> !is_white_space(#[trigger] v[i])
}

/// Whitespace at the end of a text is dropped.
pub proof fn lemma_trailing_white_space(s: Seq<char>, w: Seq<char>)
    requires
        all_white_space(w),
    ensures
        normalized(s + w) == normalized(s),
    decreases w.len(),
{
    if w.len() == 0 {
        assert(s + w =~= s);
    } else {
        lemma_trailing_white_space(s, w.drop_last());
        assert((s + w).drop_last() =~= s + w.drop_last());
        assert((s + w).last() == w[w.len() - 1]);
    }
}

/// Whitespace followed by a word adds one space and the word to what came
/// before, or only the word when nothing came before.
pub proof fn lemma_word_after_white_space(s: Seq<char>, w: Seq<char>, v: Seq<char>)
    requires
        w.len() > 0,
        all_white_space(w),
        is_word(v),
    ensures
        normalized(s + w + v) == if normalized(s).len() == 0 {
            v
        } else {
            normalized(s) + seq![' '] + v
        },
    decreases v.len(),
{
    let sw = s + w;
    lemma_trailing_white_space(s, w);
    if v.len() == 1 {
        assert((sw + v).drop_last() =~= sw);
        assert((sw + v).last() == v[0]);
        assert((sw + v)[(sw + v).len() - 2] == w[w.len() - 1]);
        if normalized(s).len() == 0 {
            assert(normalized(s).push(v[0]) =~= v);
        } else {
            assert(normalized(s).push(' ').push(v[0]) =~= normalized(s) + seq![' '] + v);
        }
    } else {
        let v0 = v.drop_last();
        assert(is_word(v0)) by {
            assert forall|i: int| 0 <= i < v0.len() implies !is_white_space(#[trigger] v0[i]) by {
                assert(v0[i] == v[i]);
            }
        }
        lemma_word_after_white_space(s, w, v0);
        assert((sw + v).drop_last() =~= sw + v0);
        assert((sw + v).last() == v[v.len() - 1]);
        assert((sw + v)[(sw + v).len() - 2] == v[v.len() - 2]);
        let prev = normalized(sw + v0);
        assert(prev.len() > 0);
        if normalized(s).len() == 0 {
            assert(prev.push(v[v.len() - 1]) =~= v);
        } else {
            assert(prev.push(v[v.len() - 1]) =~= normalized(s) + seq![' '] + v);
        }
    }
}

/// Two words with a run of whitespace between them normalize to the two
/// words with one space between them, whatever the run holds.
pub proof fn lemma_words_joined(u: Seq<char>, w: Seq<char>, v: Seq<char>)
    requires
        is_word(u),
        w.len() > 0,
        all_white_space(w),
        is_word(v),
    ensures
        normalized(u + w + v) == u + seq![' '] + v,
{
    assert(is_normal(u)) by {
        assert forall|i: int| 0 <= i < u.len() && #[trigger] u[i] == ' ' implies u[i + 1] != ' ' by {
            assert(!is_white_space(u[i]));
        }
        assert(!is_white_space(u[0]));
        assert(!is_white_space(u[u.len() - 1]));
    }
    lemma_normal_fixed(u);
    lemma_word_after_white_space(u, w, v);
}

} // verus!
