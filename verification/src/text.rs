//! Character-level text handling: whitespace, lines, words, splitting and numbers.
//!
//! Text is modelled as `Seq<char>`. The executable side works on `Vec<char>` and
//! slices of it, so every function here can be read off its specification.

use vstd::prelude::*;

verus! {

/// `String::push` appends one character to the string.
pub assume_specification[ String::push ](s: &mut String, c: char)
    ensures
        final(s)@ == old(s)@.push(c),
;

/// The views of a list of character vectors.
pub open spec fn texts(v: Seq<Vec<char>>) -> Seq<Seq<char>> {
    v.map_values(|x: Vec<char>| x@)
}

/// The views of a list of strings.
pub open spec fn strings(v: Seq<String>) -> Seq<Seq<char>> {
    v.map_values(|x: String| x@)
}

/// The characters of `s`.
pub fn chars_of(s: &str) -> (r: Vec<char>)
    ensures
        r@ == s@,
{
    let mut out: Vec<char> = Vec::new();
    for c in it: s.chars()
        invariant
            out@ == it.seq().take(it.index()),
            it.seq() == s@,
    {
        out.push(c);
    }
    out
}

/// The string holding the characters `v`.
pub fn string_of(v: &[char]) -> (r: String)
    ensures
        r@ == v@,
{
    let mut s = String::new();
    let mut i: usize = 0;
    while i < v.len()
        invariant
            i <= v@.len(),
            s@ == v@.take(i as int),
        decreases v@.len() - i,
    {
        s.push(v[i]);
        i += 1;
    }
    s
}

/// A copy of the characters `v[from..to]`.
pub fn slice_of(v: &[char], from: usize, to: usize) -> (r: Vec<char>)
    requires
        from <= to <= v@.len(),
    ensures
        r@ == v@.subrange(from as int, to as int),
{
    let mut out: Vec<char> = Vec::new();
    let mut i: usize = from;
    while i < to
        invariant
            from <= i <= to <= v@.len(),
            out@ == v@.subrange(from as int, i as int),
        decreases to - i,
    {
        out.push(v[i]);
        i += 1;
    }
    out
}

/// Whether the characters `a` are those of `b`.
pub fn chars_eq(a: &[char], b: &[char]) -> (r: bool)
    ensures
        r == (a@ == b@),
{
    if a.len() != b.len() {
        return false;
    }
    let mut i: usize = 0;
    while i < a.len()
        invariant
            i <= a@.len(),
            a@.len() == b@.len(),
            forall|k: int| 0 <= k < i ==> a@[k] == b@[k],
        decreases a@.len() - i,
    {
        if a[i] != b[i] {
            return false;
        }
        i += 1;
    }
    assert(a@ =~= b@);
    true
}

/// Whether the characters `a` spell the string `s`.
pub fn chars_are(a: &[char], s: &str) -> (r: bool)
    ensures
        r == (a@ == s@),
{
    let b = chars_of(s);
    chars_eq(a, b.as_slice())
}

/// Whether two strings hold the same text.
pub fn str_eq(a: &str, b: &str) -> (r: bool)
    ensures
        r == (a@ == b@),
{
    let x = chars_of(a);
    chars_are(x.as_slice(), b)
}

/// The Unicode `White_Space` characters.
pub open spec fn is_space(c: char) -> bool {
    ||| '\u{9}' <= c <= '\u{d}'
    ||| c == '\u{20}'
    ||| c == '\u{85}'
    ||| c == '\u{a0}'
    ||| c == '\u{1680}'
    ||| '\u{2000}' <= c <= '\u{200a}'
    ||| c == '\u{2028}'
    ||| c == '\u{2029}'
    ||| c == '\u{202f}'
    ||| c == '\u{205f}'
    ||| c == '\u{3000}'
}

/// Whether `c` is a whitespace character.
pub fn space(c: char) -> (r: bool)
    ensures
        r == is_space(c),
{
    ('\u{9}' <= c && c <= '\u{d}') || c == '\u{20}' || c == '\u{85}' || c == '\u{a0}' || c
        == '\u{1680}' || ('\u{2000}' <= c && c <= '\u{200a}') || c == '\u{2028}' || c == '\u{2029}'
        || c == '\u{202f}' || c == '\u{205f}' || c == '\u{3000}'
}

/// `s` without its leading whitespace.
pub open spec fn trim_start(s: Seq<char>) -> Seq<char>
    decreases s.len(),
{
    if s.len() > 0 && is_space(s[0]) {
        trim_start(s.drop_first())
    } else {
        s
    }
}

/// `s` without its trailing whitespace.
pub open spec fn trim_end(s: Seq<char>) -> Seq<char>
    decreases s.len(),
{
    if s.len() > 0 && is_space(s.last()) {
        trim_end(s.drop_last())
    } else {
        s
    }
}

/// `s` without its leading and trailing whitespace.
pub open spec fn trim(s: Seq<char>) -> Seq<char> {
    trim_end(trim_start(s))
}

/// `s` without its leading whitespace.
pub fn trimmed_start(s: &[char]) -> (r: Vec<char>)
    ensures
        r@ == trim_start(s@),
{
    let mut i: usize = 0;
    assert(s@.skip(0) =~= s@);
    while i < s.len() && space(s[i])
        invariant
            i <= s@.len(),
            trim_start(s@) == trim_start(s@.skip(i as int)),
        decreases s@.len() - i,
    {
        assert(s@.skip(i as int).drop_first() =~= s@.skip(i + 1));
        i += 1;
    }
    assert(s@.skip(i as int) =~= s@.subrange(i as int, s@.len() as int));
    slice_of(s, i, s.len())
}

/// `s` without its trailing whitespace.
pub fn trimmed_end(s: &[char]) -> (r: Vec<char>)
    ensures
        r@ == trim_end(s@),
{
    let mut n: usize = s.len();
    assert(s@.take(n as int) =~= s@);
    while n > 0 && space(s[n - 1])
        invariant
            n <= s@.len(),
            trim_end(s@) == trim_end(s@.take(n as int)),
        decreases n,
    {
        assert(s@.take(n as int).drop_last() =~= s@.take(n - 1));
        n -= 1;
    }
    assert(s@.take(n as int) =~= s@.subrange(0, n as int));
    slice_of(s, 0, n)
}

/// `s` without its leading and trailing whitespace.
pub fn trimmed(s: &[char]) -> (r: Vec<char>)
    ensures
        r@ == trim(s@),
{
    let a = trimmed_start(s);
    trimmed_end(a.as_slice())
}

/// The number of characters before the first `c` in `s`; `s.len()` if there is none.
pub open spec fn find_char(s: Seq<char>, c: char) -> nat
    decreases s.len(),
{
    if s.len() == 0 || s[0] == c {
        0
    } else {
        1 + find_char(s.drop_first(), c)
    }
}

pub proof fn lemma_find_char(s: Seq<char>, c: char)
    ensures
        find_char(s, c) <= s.len(),
        find_char(s, c) < s.len() ==> s[find_char(s, c) as int] == c,
        forall|i: int| 0 <= i < find_char(s, c) ==> s[i] != c,
    decreases s.len(),
{
    if s.len() == 0 || s[0] == c {
    } else {
        lemma_find_char(s.drop_first(), c);
        assert forall|i: int| 0 <= i < find_char(s, c) implies s[i] != c by {
            if i > 0 {
                assert(s[i] == s.drop_first()[i - 1]);
            }
        }
    }
}

/// The first position of `c` at or after `from`; the length if there is none.
pub fn position(s: &[char], from: usize, c: char) -> (r: usize)
    requires
        from <= s@.len(),
    ensures
        r == from + find_char(s@.skip(from as int), c),
        from <= r <= s@.len(),
{
    let mut i: usize = from;
    while i < s.len() && s[i] != c
        invariant
            from <= i <= s@.len(),
            from + find_char(s@.skip(from as int), c) == i + find_char(s@.skip(i as int), c),
        decreases s@.len() - i,
    {
        assert(s@.skip(i as int).drop_first() =~= s@.skip(i + 1));
        i += 1;
    }
    i
}

/// The lines of `s`: split after each `\n`, without the `\n` or a `\r` just before it.
pub open spec fn lines(s: Seq<char>) -> Seq<Seq<char>>
    decreases s.len(),
{
    let n = find_char(s, '\n');
    if s.len() == 0 {
        seq![]
    } else if n >= s.len() {
        seq![s]
    } else {
        seq![strip_cr(s.take(n as int))] + lines(s.skip(n as int + 1))
    }
}

/// `s` without a final `\r`.
pub open spec fn strip_cr(s: Seq<char>) -> Seq<char> {
    if s.len() > 0 && s.last() == '\r' {
        s.drop_last()
    } else {
        s
    }
}

/// The lines of `s`.
pub fn split_lines(s: &[char]) -> (r: Vec<Vec<char>>)
    ensures
        texts(r@) == lines(s@),
{
    let mut out: Vec<Vec<char>> = Vec::new();
    let mut i: usize = 0;
    assert(s@.skip(0) =~= s@);
    while i < s.len()
        invariant
            i <= s@.len(),
            texts(out@) + lines(s@.skip(i as int)) == lines(s@),
        decreases s@.len() - i,
    {
        let rest = Ghost(s@.skip(i as int));
        let n: usize = position(s, i, '\n');
        let ghost before = texts(out@);
        if n >= s.len() {
            let piece = slice_of(s, i, n);
            assert(piece@ =~= rest@);
            out.push(piece);
            assert(texts(out@) =~= before.push(rest@));
            assert(lines(rest@) =~= seq![rest@]);
            assert(s@.skip(n as int) =~= seq![]);
            assert(lines(s@.skip(n as int)) =~= seq![]);
            assert(before.push(rest@) + Seq::<Seq<char>>::empty() =~= before + seq![rest@]);
            i = n;
        } else {
            let end: usize = if n > i && s[n - 1] == '\r' {
                n - 1
            } else {
                n
            };
            let piece = slice_of(s, i, end);
            assert(rest@.take(n - i) =~= s@.subrange(i as int, n as int));
            assert(piece@ =~= strip_cr(rest@.take(n - i)));
            out.push(piece);
            assert(texts(out@) =~= before.push(piece@));
            assert(rest@.skip(n - i + 1) =~= s@.skip(n + 1));
            assert(before.push(piece@) + lines(s@.skip(n + 1)) =~= before + (seq![piece@] + lines(
                s@.skip(n + 1),
            )));
            i = n + 1;
        }
    }
    assert(s@.skip(i as int) =~= seq![]);
    assert(texts(out@) + lines(s@.skip(i as int)) =~= texts(out@));
    out
}

/// The number of leading characters of `s` that are not whitespace.
pub open spec fn word_len(s: Seq<char>) -> nat
    decreases s.len(),
{
    if s.len() == 0 || is_space(s[0]) {
        0
    } else {
        1 + word_len(s.drop_first())
    }
}

pub proof fn lemma_word_len(s: Seq<char>)
    ensures
        word_len(s) <= s.len(),
        word_len(s) < s.len() ==> is_space(s[word_len(s) as int]),
        forall|i: int| 0 <= i < word_len(s) ==> !is_space(s[i]),
    decreases s.len(),
{
    if s.len() == 0 || is_space(s[0]) {
    } else {
        lemma_word_len(s.drop_first());
        assert forall|i: int| 0 <= i < word_len(s) implies !is_space(s[i]) by {
            if i > 0 {
                assert(s[i] == s.drop_first()[i - 1]);
            }
        }
    }
}

/// The maximal runs of characters that are not whitespace, in order.
pub open spec fn words(s: Seq<char>) -> Seq<Seq<char>>
    decreases s.len(),
{
    if s.len() == 0 {
        seq![]
    } else if is_space(s[0]) {
        words(s.drop_first())
    } else {
        proof {
            lemma_word_len(s);
        }
        seq![s.take(word_len(s) as int)] + words(s.skip(word_len(s) as int))
    }
}

/// The whitespace-separated words of `s`.
pub fn split_words(s: &[char]) -> (r: Vec<Vec<char>>)
    ensures
        texts(r@) == words(s@),
{
    let mut out: Vec<Vec<char>> = Vec::new();
    let mut i: usize = 0;
    assert(s@.skip(0) =~= s@);
    while i < s.len()
        invariant
            i <= s@.len(),
            texts(out@) + words(s@.skip(i as int)) == words(s@),
        decreases s@.len() - i,
    {
        let ghost rest = s@.skip(i as int);
        if space(s[i]) {
            assert(rest.drop_first() =~= s@.skip(i + 1));
            i += 1;
        } else {
            let start: usize = i;
            let ghost before = texts(out@);
            proof {
                assert(rest.skip(0) =~= rest);
            }
            while i < s.len() && !space(s[i])
                invariant
                    start <= i <= s@.len(),
                    rest == s@.skip(start as int),
                    word_len(rest) == (i - start) + word_len(s@.skip(i as int)),
                decreases s@.len() - i,
            {
                assert(s@.skip(i as int).drop_first() =~= s@.skip(i + 1));
                i += 1;
            }
            assert(word_len(rest) == i - start);
            let piece = slice_of(s, start, i);
            assert(piece@ =~= rest.take(word_len(rest) as int));
            out.push(piece);
            assert(texts(out@) =~= before.push(piece@));
            assert(rest.skip(word_len(rest) as int) =~= s@.skip(i as int));
            assert(before.push(piece@) + words(s@.skip(i as int)) =~= before + (seq![piece@]
                + words(s@.skip(i as int))));
        }
    }
    assert(s@.skip(i as int) =~= seq![]);
    assert(texts(out@) + words(s@.skip(i as int)) =~= texts(out@));
    out
}

/// The pieces of `s` between the occurrences of `c`.
pub open spec fn split(s: Seq<char>, c: char) -> Seq<Seq<char>>
    decreases s.len(),
{
    let n = find_char(s, c);
    if n >= s.len() {
        seq![s]
    } else {
        seq![s.take(n as int)] + split(s.skip(n as int + 1), c)
    }
}

/// The pieces of `s` between the occurrences of `c`.
pub fn split_at_char(s: &[char], c: char) -> (r: Vec<Vec<char>>)
    ensures
        texts(r@) == split(s@, c),
        r.len() > 0,
{
    let mut out: Vec<Vec<char>> = Vec::new();
    let mut i: usize = 0;
    assert(s@.skip(0) =~= s@);
    assert(texts(out@) + split(s@, c) =~= split(s@, c));
    loop
        invariant
            i <= s@.len(),
            texts(out@) + split(s@.skip(i as int), c) == split(s@, c),
        decreases s@.len() - i,
    {
        let ghost rest = s@.skip(i as int);
        let ghost before = texts(out@);
        let n: usize = position(s, i, c);
        let piece = slice_of(s, i, n);
        out.push(piece);
        assert(texts(out@) =~= before.push(piece@));
        if n >= s.len() {
            assert(piece@ =~= rest);
            assert(before.push(rest) =~= before + seq![rest]);
            return out;
        }
        assert(piece@ =~= rest.take(n - i));
        assert(rest.skip(n - i + 1) =~= s@.skip(n + 1));
        assert(before.push(piece@) + split(s@.skip(n + 1), c) =~= before + (seq![piece@] + split(
            s@.skip(n + 1),
            c,
        )));
        i = n + 1;
    }
}

/// Whether `s` begins with `p`.
pub open spec fn starts_with(s: Seq<char>, p: Seq<char>) -> bool {
    p.len() <= s.len() && s.take(p.len() as int) == p
}

/// Whether `s` begins with the text `p`.
pub fn begins_with(s: &[char], p: &str) -> (r: bool)
    ensures
        r == starts_with(s@, p@),
{
    let q = chars_of(p);
    if q.len() > s.len() {
        return false;
    }
    let head = slice_of(s, 0, q.len());
    assert(head@ =~= s@.take(q@.len() as int));
    chars_eq(head.as_slice(), q.as_slice())
}

/// The position of the last `c` in `s`, if any.
pub open spec fn rfind_char(s: Seq<char>, c: char) -> Option<nat>
    decreases s.len(),
{
    if s.len() == 0 {
        None
    } else if s.last() == c {
        Some((s.len() - 1) as nat)
    } else {
        rfind_char(s.drop_last(), c)
    }
}

pub proof fn lemma_rfind_char(s: Seq<char>, c: char)
    ensures
        rfind_char(s, c) matches Some(i) ==> i < s.len() && s[i as int] == c && forall|k: int|
            i < k < s.len() ==> s[k] != c,
        rfind_char(s, c) is None ==> forall|k: int| 0 <= k < s.len() ==> s[k] != c,
    decreases s.len(),
{
    if s.len() > 0 && s.last() != c {
        lemma_rfind_char(s.drop_last(), c);
        assert(forall|k: int| 0 <= k < s.len() - 1 ==> s[k] == s.drop_last()[k]);
    }
}

/// The position of the last `c` in `s`, if any.
pub fn rposition(s: &[char], c: char) -> (r: Option<usize>)
    ensures
        r is Some <==> rfind_char(s@, c) is Some,
        r matches Some(i) ==> rfind_char(s@, c) == Some(i as nat) && i < s@.len() && s@[i as int]
            == c,
{
    let mut n: usize = s.len();
    assert(s@.take(n as int) =~= s@);
    while n > 0
        invariant
            n <= s@.len(),
            rfind_char(s@, c) == rfind_char(s@.take(n as int), c),
        decreases n,
    {
        if s[n - 1] == c {
            return Some(n - 1);
        }
        assert(s@.take(n as int).drop_last() =~= s@.take(n - 1));
        n -= 1;
    }
    None
}

/// The value of a digit in bases up to sixteen.
pub open spec fn digit_value(c: char) -> Option<nat> {
    if '0' <= c <= '9' {
        Some((c as u32 - '0' as u32) as nat)
    } else if 'a' <= c <= 'f' {
        Some((c as u32 - 'a' as u32 + 10) as nat)
    } else if 'A' <= c <= 'F' {
        Some((c as u32 - 'A' as u32 + 10) as nat)
    } else {
        None
    }
}

/// The value of the digits `s` in base `radix`; `None` if one is not a digit of it.
pub open spec fn digits_value(s: Seq<char>, radix: nat) -> Option<nat>
    decreases s.len(),
{
    if s.len() == 0 {
        Some(0)
    } else {
        match (digits_value(s.drop_last(), radix), digit_value(s.last())) {
            (Some(n), Some(d)) => if d < radix {
                Some(n * radix + d)
            } else {
                None
            },
            _ => None,
        }
    }
}

/// The unsigned number that `s` spells in base `radix`, at most `max`: digits with an
/// optional leading `+`, and nothing else.
pub open spec fn unsigned_value(s: Seq<char>, radix: nat, max: nat) -> Option<nat> {
    let body = if s.len() > 0 && s[0] == '+' {
        s.drop_first()
    } else {
        s
    };
    if body.len() == 0 {
        None
    } else {
        match digits_value(body, radix) {
            Some(n) => if n <= max {
                Some(n)
            } else {
                None
            },
            None => None,
        }
    }
}

/// The signed number that `s` spells in base ten within `min..=max`: digits with an
/// optional leading `+` or `-`.
pub open spec fn signed_value(s: Seq<char>, min: int, max: int) -> Option<int> {
    if s.len() > 0 && s[0] == '-' {
        if s.len() == 1 {
            None
        } else {
            match digits_value(s.drop_first(), 10) {
                Some(n) => if -(n as int) >= min {
                    Some(-(n as int))
                } else {
                    None
                },
                None => None,
            }
        }
    } else {
        match unsigned_value(s, 10, max as nat) {
            Some(n) => Some(n as int),
            None => None,
        }
    }
}

/// The value of the digit `c`.
fn digit(c: char) -> (r: Option<u64>)
    ensures
        r is Some <==> digit_value(c) is Some,
        r matches Some(d) ==> digit_value(c) == Some(d as nat) && d < 16,
{
    if '0' <= c && c <= '9' {
        Some((c as u32 - '0' as u32) as u64)
    } else if 'a' <= c && c <= 'f' {
        Some((c as u32 - 'a' as u32 + 10) as u64)
    } else if 'A' <= c && c <= 'F' {
        Some((c as u32 - 'A' as u32 + 10) as u64)
    } else {
        None
    }
}

/// A prefix of a digit string spells no more than the whole.
proof fn lemma_digits_grow(s: Seq<char>, n: int, radix: nat)
    requires
        0 <= n <= s.len(),
        radix >= 2,
        digits_value(s, radix) is Some,
    ensures
        digits_value(s.take(n), radix) is Some,
        digits_value(s.take(n), radix)->0 <= digits_value(s, radix)->0,
    decreases s.len() - n,
{
    if n == s.len() {
        assert(s.take(n) =~= s);
    } else {
        lemma_digits_grow(s, n + 1, radix);
        assert(s.take(n + 1).drop_last() =~= s.take(n));
        let a = digits_value(s.take(n), radix)->0;
        assert(a * radix >= a) by (nonlinear_arith)
            requires
                radix >= 2,
        ;
    }
}

/// The number spelled by the digits `s[from..]` in base `radix`, when it is at most `max`.
fn digits_from(s: &[char], from: usize, radix: u64, max: u64) -> (r: Option<u64>)
    requires
        from <= s@.len(),
        2 <= radix <= 16,
    ensures
        r == match digits_value(s@.skip(from as int), radix as nat) {
            Some(n) => if n <= max {
                Some(n as u64)
            } else {
                None::<u64>
            },
            None => None::<u64>,
        },
{
    let ghost body = s@.skip(from as int);
    let mut acc: u64 = 0;
    let mut i: usize = from;
    assert(body.take(0) =~= seq![]);
    while i < s.len()
        invariant
            from <= i <= s@.len(),
            2 <= radix <= 16,
            body == s@.skip(from as int),
            digits_value(body.take(i - from), radix as nat) == Some(acc as nat),
            acc <= max,
        decreases s@.len() - i,
    {
        assert(body.take(i - from + 1).drop_last() =~= body.take(i - from));
        assert(body.take(i - from + 1).last() == s@[i as int]);
        let d: u64 = match digit(s[i]) {
            Some(d) => d,
            None => {
                proof {
                    if digits_value(body, radix as nat) is Some {
                        lemma_digits_grow(body, i - from + 1, radix as nat);
                    }
                }
                return None;
            },
        };
        if d >= radix {
            proof {
                if digits_value(body, radix as nat) is Some {
                    lemma_digits_grow(body, i - from + 1, radix as nat);
                }
            }
            return None;
        }
        assert(0 <= acc * radix <= acc * 16) by (nonlinear_arith)
            requires
                0 <= radix <= 16,
                acc >= 0,
        ;
        let wide: u128 = acc as u128 * radix as u128 + d as u128;
        assert(wide == acc * radix + d);
        if wide > max as u128 {
            proof {
                if digits_value(body, radix as nat) is Some {
                    lemma_digits_grow(body, i - from + 1, radix as nat);
                }
            }
            return None;
        }
        acc = wide as u64;
        i += 1;
    }
    assert(body.take(i - from) =~= body);
    Some(acc)
}

/// Parse an unsigned number in base `radix` that is at most `max`.
pub fn parse_unsigned(s: &[char], radix: u64, max: u64) -> (r: Option<u64>)
    requires
        2 <= radix <= 16,
    ensures
        r == match unsigned_value(s@, radix as nat, max as nat) {
            Some(n) => Some(n as u64),
            None => None::<u64>,
        },
{
    let from: usize = if s.len() > 0 && s[0] == '+' {
        1
    } else {
        0
    };
    proof {
        assert(s@.skip(0) =~= s@);
        if s@.len() > 0 {
            assert(s@.skip(1) =~= s@.drop_first());
        }
    }
    if from >= s.len() {
        return None;
    }
    digits_from(s, from, radix, max)
}

/// Parse a signed 64-bit number in base ten.
pub fn parse_i64(s: &[char]) -> (r: Option<i64>)
    ensures
        r == match signed_value(s@, i64::MIN as int, i64::MAX as int) {
            Some(n) => Some(n as i64),
            None => None::<i64>,
        },
{
    if s.len() > 0 && s[0] == '-' {
        if s.len() == 1 {
            return None;
        }
        assert(s@.skip(1) =~= s@.drop_first());
        match digits_from(s, 1, 10, 0x8000_0000_0000_0000) {
            Some(n) => {
                if n == 0x8000_0000_0000_0000 {
                    Some(i64::MIN)
                } else {
                    Some(-(n as i64))
                }
            },
            None => None,
        }
    } else {
        match parse_unsigned(s, 10, i64::MAX as u64) {
            Some(n) => Some(n as i64),
            None => None,
        }
    }
}

/// The character for the decimal digit `d`.
pub open spec fn digit_char(d: nat) -> char {
    ('0' as u32 + d) as char
}

/// The decimal spelling of `n`.
pub open spec fn decimal(n: nat) -> Seq<char>
    decreases n,
{
    if n < 10 {
        seq![digit_char(n)]
    } else {
        decimal(n / 10).push(digit_char(n % 10))
    }
}

/// The decimal spelling of a possibly negative number.
pub open spec fn signed_decimal(n: int) -> Seq<char> {
    if n < 0 {
        seq!['-'] + decimal((-n) as nat)
    } else {
        decimal(n as nat)
    }
}

fn digit_to_char(d: u64) -> (r: char)
    requires
        d < 10,
    ensures
        r == digit_char(d as nat),
{
    (48 + d as u8) as char
}

/// Append the decimal spelling of `n` to `out`.
pub fn push_decimal(out: &mut String, n: u64)
    ensures
        final(out)@ == old(out)@ + decimal(n as nat),
    decreases n,
{
    if n >= 10 {
        push_decimal(out, n / 10);
    }
    out.push(digit_to_char(n % 10));
}

/// Append the decimal spelling of `n` to `out`.
pub fn push_signed(out: &mut String, n: i64)
    ensures
        final(out)@ == old(out)@ + signed_decimal(n as int),
{
    if n < 0 {
        out.push('-');
        if n == i64::MIN {
            push_decimal(out, 0x8000_0000_0000_0000);
        } else {
            push_decimal(out, (-n) as u64);
        }
    } else {
        push_decimal(out, n as u64);
    }
}

/// The character for the hexadecimal digit `d`, in lower case.
pub open spec fn hex_char(d: nat) -> char {
    if d < 10 {
        ('0' as u32 + d) as char
    } else {
        ('a' as u32 + (d - 10)) as char
    }
}

/// Two hexadecimal digits for each byte.
pub open spec fn hex_text(bytes: Seq<u8>) -> Seq<char>
    decreases bytes.len(),
{
    if bytes.len() == 0 {
        seq![]
    } else {
        hex_text(bytes.drop_last()).push(hex_char((bytes.last() / 16) as nat)).push(
            hex_char((bytes.last() % 16) as nat),
        )
    }
}

fn hex_digit(d: u8) -> (r: char)
    requires
        d < 16,
    ensures
        r == hex_char(d as nat),
{
    if d < 10 {
        (48 + d) as char
    } else {
        (87 + d) as char
    }
}

/// The lower-case hexadecimal text of some bytes, two digits for each.
pub fn hex_encode(bytes: &[u8]) -> (r: String)
    ensures
        r@ == hex_text(bytes@),
{
    let mut out = String::new();
    let mut i: usize = 0;
    assert(bytes@.take(0) =~= seq![]);
    while i < bytes.len()
        invariant
            i <= bytes@.len(),
            out@ == hex_text(bytes@.take(i as int)),
        decreases bytes@.len() - i,
    {
        let t = Ghost(bytes@.take(i + 1));
        assert(t@.drop_last() =~= bytes@.take(i as int));
        out.push(hex_digit(bytes[i] / 16));
        out.push(hex_digit(bytes[i] % 16));
        i += 1;
    }
    assert(bytes@.take(i as int) =~= bytes@);
    out
}

/// The bytes that pairs of hexadecimal digits spell; `None` if one is no number or a digit is
/// left over.
pub open spec fn hex_pairs(s: Seq<char>) -> Option<Seq<u8>>
    decreases s.len(),
{
    if s.len() == 0 {
        Some(seq![])
    } else if s.len() == 1 {
        None
    } else {
        match (
            hex_pairs(s.take(s.len() - 2)),
            unsigned_value(s.skip(s.len() - 2), 16, 255),
        ) {
            (Some(head), Some(b)) => Some(head.push(b as u8)),
            _ => None,
        }
    }
}

/// The bytes that pairs of hexadecimal digits spell.
pub fn parse_hex_pairs(s: &[char]) -> (r: Option<Vec<u8>>)
    ensures
        r is Some <==> hex_pairs(s@) is Some,
        r matches Some(v) ==> hex_pairs(s@) == Some(v@),
    decreases s@.len(),
{
    let n: usize = s.len();
    if n == 0 {
        let v: Vec<u8> = Vec::new();
        assert(v@ =~= seq![]);
        return Some(v);
    }
    if n == 1 {
        return None;
    }
    let head = slice_of(s, 0, n - 2);
    let pair = slice_of(s, n - 2, n);
    assert(head@ =~= s@.take(n - 2));
    assert(pair@ =~= s@.skip(n - 2));
    match parse_hex_pairs(head.as_slice()) {
        Some(v) => match parse_unsigned(pair.as_slice(), 16, 255) {
            Some(b) => {
                let mut v = v;
                v.push(b as u8);
                Some(v)
            },
            None => None,
        },
        None => None,
    }
}

/// Hexadecimal text reads back.
pub proof fn hex_reads_back(bytes: Seq<u8>)
    ensures
        hex_pairs(hex_text(bytes)) == Some(bytes),
        hex_text(bytes).len() == 2 * bytes.len(),
        forall|i: int| 0 <= i < hex_text(bytes).len() ==> #[trigger] hex_text(bytes)[i] != ' ',
    decreases bytes.len(),
{
    if bytes.len() > 0 {
        let d = bytes.drop_last();
        hex_reads_back(d);
        let s = hex_text(bytes);
        let n = s.len();
        let b = bytes.last();
        assert(s.take(n - 2) =~= hex_text(d));
        let hi = hex_char((b / 16) as nat);
        let lo = hex_char((b % 16) as nat);
        let pair = s.skip(n - 2);
        assert(pair =~= seq![hi, lo]);
        assert(pair.drop_last() =~= seq![hi]);
        assert(pair.drop_last().drop_last() =~= seq![]);
        assert(digits_value(pair.drop_last().drop_last(), 16) == Some(0nat));
        assert(digit_value(hi) == Some((b / 16) as nat));
        assert(digit_value(lo) == Some((b % 16) as nat));
        assert(digits_value(pair.drop_last(), 16) == Some((b / 16) as nat));
        assert(digits_value(pair, 16) == Some(b as nat));
        assert(d.push(b) =~= bytes);
        assert forall|i: int| 0 <= i < s.len() implies #[trigger] s[i] != ' ' by {
            if i < n - 2 {
                assert(s[i] == hex_text(d)[i]);
            }
        }
    }
}

/// A decimal spelling is not empty, holds only digits, and spells its number.
pub proof fn lemma_decimal(n: nat)
    ensures
        decimal(n).len() > 0,
        forall|i: int| 0 <= i < decimal(n).len() ==> '0' <= #[trigger] decimal(n)[i] <= '9',
        digits_value(decimal(n), 10) == Some(n),
    decreases n,
{
    if n < 10 {
        let s = seq![digit_char(n)];
        assert(s.drop_last() =~= seq![]);
        assert(digits_value(s.drop_last(), 10) == Some(0nat));
    } else {
        lemma_decimal(n / 10);
        assert(decimal(n).drop_last() =~= decimal(n / 10));
    }
}

/// Reading back a decimal spelling gives the number, whatever bound it is under.
pub proof fn decimal_reads_back(n: nat, max: nat)
    requires
        n <= max,
    ensures
        unsigned_value(decimal(n), 10, max) == Some(n),
{
    lemma_decimal(n);
    assert('0' <= decimal(n)[0] <= '9');
}

/// Reading back the spelling of a signed number gives the number.
pub proof fn signed_decimal_reads_back(n: int, min: int, max: int)
    requires
        min <= n <= max,
        max >= 0,
    ensures
        signed_value(signed_decimal(n), min, max) == Some(n),
{
    if n < 0 {
        lemma_decimal((-n) as nat);
        assert(signed_decimal(n).drop_first() =~= decimal((-n) as nat));
    } else {
        lemma_decimal(n as nat);
        decimal_reads_back(n as nat, max as nat);
        assert('0' <= decimal(n as nat)[0] <= '9');
    }
}

/// The text that `String::from_utf8_lossy` makes of bytes.
pub uninterp spec fn lossy_text(bytes: Seq<u8>) -> Seq<char>;

/// `String::from_utf8_lossy`: the text of the bytes, with each part that is not UTF-8 replaced.
/// Bytes that are UTF-8 give the text that they encode.
#[verifier::external_body]
fn lossy(bytes: &[u8]) -> (r: String)
    ensures
        r@ == lossy_text(bytes@),
        vstd::utf8::valid_utf8(bytes@) ==> r@ == vstd::utf8::decode_utf8(bytes@),
{
    String::from_utf8_lossy(bytes).into_owned()
}

/// The text of bytes: what they encode where they are UTF-8, else what `String::from_utf8_lossy`
/// makes of them.
pub open spec fn bytes_text(bytes: Seq<u8>) -> Seq<char> {
    if vstd::utf8::valid_utf8(bytes) {
        vstd::utf8::decode_utf8(bytes)
    } else {
        lossy_text(bytes)
    }
}

/// The text of bytes, whether or not they are UTF-8.
pub fn text_of_bytes(bytes: &[u8]) -> (r: String)
    ensures
        r@ == bytes_text(bytes@),
{
    lossy(bytes)
}

/// `std::str::from_utf8`: the text that the bytes encode, if they are UTF-8.
#[verifier::external_body]
pub(crate) fn utf8_text(bytes: &[u8]) -> (r: Option<String>)
    ensures
        r is Some <==> vstd::utf8::valid_utf8(bytes@),
        r matches Some(s) ==> s@ == vstd::utf8::decode_utf8(bytes@),
{
    match std::str::from_utf8(bytes) {
        Ok(s) => Some(s.to_string()),
        Err(_) => None,
    }
}

} // verus!
