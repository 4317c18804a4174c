//! What trimming, splitting and reading numbers do with texts, said by how a text is put together.

use vstd::prelude::*;

use crate::text::decimal;
use crate::text::digit_value;
use crate::text::digits_value;
use crate::text::find_char;
use crate::text::is_space;
use crate::text::lemma_decimal;
use crate::text::lemma_find_char;
use crate::text::lemma_word_len;
use crate::text::lines;
use crate::text::rfind_char;
use crate::text::signed_value;
use crate::text::split;
use crate::text::trim;
use crate::text::trim_end;
use crate::text::trim_start;
use crate::text::unsigned_value;
use crate::text::word_len;
use crate::text::words;

verus! {

/// Whether a text holds white space and nothing else.
pub open spec fn is_blank(s: Seq<char>) -> bool {
    forall|i: int| 0 <= i < s.len() ==> is_space(#[trigger] s[i])
}

/// Whether a text is empty, or begins and ends with something other than white space.
pub open spec fn is_tight(s: Seq<char>) -> bool {
    s.len() > 0 ==> !is_space(s[0]) && !is_space(s[s.len() - 1])
}

/// Whether a text is a word: not empty, and without white space.
pub open spec fn is_plain_word(s: Seq<char>) -> bool {
    s.len() > 0 && forall|i: int| 0 <= i < s.len() ==> !is_space(#[trigger] s[i])
}

/// Whether a character does not occur in a text.
pub open spec fn lacks(s: Seq<char>, c: char) -> bool {
    forall|i: int| 0 <= i < s.len() ==> #[trigger] s[i] != c
}

/// Blank and line feed are white space; letters, digits and punctuation are not.
pub proof fn printable_characters_are_no_space(c: char)
    ensures
        is_space(' '),
        is_space('\t'),
        is_space('\n'),
        is_space('\r'),
        '!' <= c <= '~' ==> !is_space(c),
{
}

proof fn lemma_trim_start(a: Seq<char>, s: Seq<char>)
    requires
        is_blank(a),
        s.len() > 0 ==> !is_space(s[0]),
    ensures
        trim_start(a + s) == s,
    decreases a.len(),
{
    if a.len() == 0 {
        assert(a + s =~= s);
    } else {
        assert((a + s)[0] == a[0]);
        let t = a.drop_first();
        assert forall|i: int| 0 <= i < t.len() implies is_space(#[trigger] t[i]) by {
            assert(t[i] == a[i + 1]);
        }
        assert((a + s).drop_first() =~= t + s);
        lemma_trim_start(t, s);
    }
}

proof fn lemma_trim_end(s: Seq<char>, b: Seq<char>)
    requires
        is_blank(b),
        s.len() > 0 ==> !is_space(s[s.len() - 1]),
    ensures
        trim_end(s + b) == s,
    decreases b.len(),
{
    if b.len() == 0 {
        assert(s + b =~= s);
    } else {
        let t = b.drop_last();
        assert((s + b).last() == b[b.len() - 1]);
        assert forall|i: int| 0 <= i < t.len() implies is_space(#[trigger] t[i]) by {
            assert(t[i] == b[i]);
        }
        assert((s + b).drop_last() =~= s + t);
        lemma_trim_end(s, t);
    }
}

/// Trimming takes all white space off both ends, or off the end alone, and nothing else.
pub proof fn trimming_takes_the_white_space(a: Seq<char>, s: Seq<char>, b: Seq<char>)
    requires
        is_blank(a),
        is_blank(b),
        is_tight(s),
    ensures
        trim(a + s + b) == s,
        trim_start(a + s) == s,
        s.len() > 0 ==> trim_end(a + s + b) == a + s,
        trim_end(b) == Seq::<char>::empty(),
{
    if s.len() == 0 {
        assert(a + s + b =~= a + b);
        let ab = a + b;
        assert(is_blank(ab)) by {
            assert forall|i: int| 0 <= i < ab.len() implies is_space(#[trigger] ab[i]) by {
                if i < a.len() {
                    assert(ab[i] == a[i]);
                } else {
                    assert(ab[i] == b[i - a.len()]);
                }
            }
        }
        lemma_trim_start(ab, s);
        assert(ab + s =~= ab);
        lemma_trim_start(a, s);
    } else {
        assert(a + s + b =~= a + (s + b));
        assert((s + b)[0] == s[0]);
        lemma_trim_start(a, s + b);
        lemma_trim_end(s, b);
        lemma_trim_start(a, s);
        assert((a + s)[(a + s).len() - 1] == s[s.len() - 1]);
        lemma_trim_end(a + s, b);
    }
    let e = Seq::<char>::empty();
    lemma_trim_end(e, b);
    assert(e + b =~= b);
}

proof fn lemma_find(p: Seq<char>, c: char, rest: Seq<char>)
    requires
        lacks(p, c),
    ensures
        find_char(p + seq![c] + rest, c) == p.len(),
        find_char(p, c) == p.len(),
{
    let s = p + seq![c] + rest;
    lemma_find_char(s, c);
    lemma_find_char(p, c);
    let n = find_char(s, c) as int;
    if n < p.len() {
        assert(s[n] == p[n]);
    }
    if n > p.len() {
        assert(s[p.len() as int] == c);
    }
    let m = find_char(p, c) as int;
    if m < p.len() {
        assert(p[m] == c);
    }
}

/// A line ends with a line feed, or with a carriage return and a line feed, which are no part of
/// it; what is behind are the further lines.
pub proof fn lines_end_with_a_line_feed(l: Seq<char>, rest: Seq<char>)
    requires
        lacks(l, '\n'),
        l.len() > 0 ==> l[l.len() - 1] != '\r',
    ensures
        lines(l + seq!['\n'] + rest) == seq![l] + lines(rest),
        lines(l + seq!['\r', '\n'] + rest) == seq![l] + lines(rest),
{
    let s = l + seq!['\n'] + rest;
    lemma_find(l, '\n', rest);
    assert(s.take(l.len() as int) =~= l);
    assert(s.skip(l.len() as int + 1) =~= rest);
    let k = l + seq!['\r'];
    assert(lacks(k, '\n')) by {
        assert forall|i: int| 0 <= i < k.len() implies #[trigger] k[i] != '\n' by {
            if i < l.len() {
                assert(k[i] == l[i]);
            }
        }
    }
    let u = l + seq!['\r', '\n'] + rest;
    assert(u =~= k + seq!['\n'] + rest);
    lemma_find(k, '\n', rest);
    assert(u.take(k.len() as int) =~= k);
    assert(u.skip(k.len() as int + 1) =~= rest);
    assert(k.last() == '\r');
    assert(k.drop_last() =~= l);
}

/// What is behind the last line feed is a line, unless nothing is.
pub proof fn last_line_needs_no_line_feed(l: Seq<char>)
    requires
        lacks(l, '\n'),
    ensures
        l.len() > 0 ==> lines(l) == seq![l],
        l.len() == 0 ==> lines(l) == Seq::<Seq<char>>::empty(),
{
    lemma_find(l, '\n', l);
}

/// Each separator ends a piece, and what is behind the last one is a piece as well, also where it
/// is empty.
pub proof fn separators_end_pieces(p: Seq<char>, c: char, rest: Seq<char>)
    requires
        lacks(p, c),
    ensures
        split(p, c) == seq![p],
        split(p + seq![c] + rest, c) == seq![p] + split(rest, c),
{
    let s = p + seq![c] + rest;
    lemma_find(p, c, rest);
    assert(s.take(p.len() as int) =~= p);
    assert(s.skip(p.len() as int + 1) =~= rest);
}

proof fn lemma_words_skip_blank(a: Seq<char>, rest: Seq<char>)
    requires
        is_blank(a),
    ensures
        words(a + rest) == words(rest),
    decreases a.len(),
{
    if a.len() == 0 {
        assert(a + rest =~= rest);
    } else {
        let t = a.drop_first();
        assert((a + rest)[0] == a[0]);
        assert((a + rest).drop_first() =~= t + rest);
        assert forall|i: int| 0 <= i < t.len() implies is_space(#[trigger] t[i]) by {
            assert(t[i] == a[i + 1]);
        }
        lemma_words_skip_blank(t, rest);
    }
}

/// White space parts words, however much there is of it: a text that begins with a word has that
/// word first and then the words of what is behind it, and blank texts have none.
pub proof fn white_space_parts_words(a: Seq<char>, w: Seq<char>, rest: Seq<char>)
    requires
        is_blank(a),
        is_plain_word(w),
        rest.len() > 0 ==> is_space(rest[0]),
    ensures
        words(a + w + rest) == seq![w] + words(rest),
        words(a) == Seq::<Seq<char>>::empty(),
{
    assert(a + w + rest =~= a + (w + rest));
    lemma_words_skip_blank(a, w + rest);
    let s = w + rest;
    assert(s[0] == w[0]);
    lemma_word_len(s);
    let n = word_len(s) as int;
    if n < w.len() {
        assert(s[n] == w[n]);
    }
    if n > w.len() {
        assert(s[w.len() as int] == rest[0]);
    }
    assert(s.take(n) =~= w);
    assert(s.skip(n) =~= rest);
    lemma_words_skip_blank(a, Seq::empty());
    assert(a + Seq::<char>::empty() =~= a);
}

/// The last occurrence of a character is the one behind which there is no other.
pub proof fn last_occurrence_is_found(p: Seq<char>, c: char, rest: Seq<char>)
    requires
        lacks(rest, c),
    ensures
        rfind_char(p + seq![c] + rest, c) == Some(p.len()),
        rfind_char(rest, c) is None,
    decreases rest.len(),
{
    let s = p + seq![c] + rest;
    if rest.len() > 0 {
        let t = rest.drop_last();
        assert(s.last() == rest[rest.len() - 1]);
        assert(s.drop_last() =~= p + seq![c] + t);
        assert forall|i: int| 0 <= i < t.len() implies #[trigger] t[i] != c by {
            assert(t[i] == rest[i]);
        }
        last_occurrence_is_found(p, c, t);
    }
}

proof fn lemma_no_digits(s: Seq<char>, i: int)
    requires
        0 <= i < s.len(),
        !('0' <= s[i] <= '9'),
    ensures
        digits_value(s, 10) is None,
    decreases s.len(),
{
    if i < s.len() - 1 {
        assert(s.drop_last()[i] == s[i]);
        lemma_no_digits(s.drop_last(), i);
    } else {
        assert(s.last() == s[i]);
        assert(digit_value(s[i]) matches Some(d) ==> d >= 10);
    }
}

/// Digits spell a number in base ten, also behind a plus sign. A number above the
/// limit, an empty text and a text with any other character in it spell none.
pub proof fn only_digits_spell_numbers(n: nat, max: nat, s: Seq<char>, i: int)
    ensures
        n <= max ==> unsigned_value(decimal(n), 10, max) == Some(n),
        n <= max ==> unsigned_value(seq!['+'] + decimal(n), 10, max) == Some(n),
        n > max ==> unsigned_value(decimal(n), 10, max) is None,
        unsigned_value(Seq::<char>::empty(), 10, max) is None,
        0 < i < s.len() && !('0' <= s[i] <= '9') ==> unsigned_value(s, 10, max) is None,
        s.len() > 0 && !('0' <= s[0] <= '9') && s[0] != '+' ==> unsigned_value(s, 10, max) is None,
{
    lemma_decimal(n);
    assert('0' <= decimal(n)[0] <= '9');
    let p = seq!['+'] + decimal(n);
    assert(p.drop_first() =~= decimal(n));
    if 0 < i < s.len() && !('0' <= s[i] <= '9') {
        lemma_no_digits(s, i);
        assert(s.drop_first()[i - 1] == s[i]);
        lemma_no_digits(s.drop_first(), i - 1);
    }
    if s.len() > 0 && !('0' <= s[0] <= '9') && s[0] != '+' {
        lemma_no_digits(s, 0);
    }
}

/// A minus sign before digits spells the negated number, within the limits.
pub proof fn minus_negates(n: nat, min: int, max: int)
    requires
        max >= 0,
    ensures
        -n >= min ==> signed_value(seq!['-'] + decimal(n), min, max) == Some(-(n as int)),
        -n < min ==> signed_value(seq!['-'] + decimal(n), min, max) is None,
        n <= max ==> signed_value(decimal(n), min, max) == Some(n as int),
        n > max ==> signed_value(decimal(n), min, max) is None,
{
    lemma_decimal(n);
    assert('0' <= decimal(n)[0] <= '9');
    let p = seq!['-'] + decimal(n);
    assert(p.drop_first() =~= decimal(n));
    only_digits_spell_numbers(n, max as nat, p, 0);
}

} // verus!
