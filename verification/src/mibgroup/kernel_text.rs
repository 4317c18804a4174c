//! What the texts of the kernel's network files have in common: counters below their names, and
//! addresses in hexadecimal.

use vstd::prelude::*;

use crate::config::lowered;
use crate::config::same_word;
use crate::text::begins_with;
use crate::text::chars_are;
use crate::text::chars_of;
use crate::text::find_char;
use crate::text::lines;
use crate::text::parse_i64;
use crate::text::parse_unsigned;
use crate::text::position;
use crate::text::signed_value;
use crate::text::slice_of;
use crate::text::split_lines;
use crate::text::split_words;
use crate::text::starts_with;
use crate::text::texts;
use crate::text::trim;
use crate::text::trimmed;
use crate::text::unsigned_value;
use crate::text::words;
use crate::value::Ipv4Addr;

verus! {

/// The lines that begin with a prefix.
pub open spec fn lines_with(ls: Seq<Seq<char>>, prefix: Seq<char>) -> Seq<Seq<char>>
    decreases ls.len(),
{
    if ls.len() == 0 {
        seq![]
    } else if starts_with(ls.last(), prefix) {
        lines_with(ls.drop_last(), prefix).push(ls.last())
    } else {
        lines_with(ls.drop_last(), prefix)
    }
}

/// The names and the values of counters.
pub struct ColumnsView {
    pub names: Seq<Seq<char>>,
    pub values: Seq<Seq<char>>,
}

/// The words of a line behind a prefix.
pub open spec fn words_behind(line: Seq<char>, prefix: Seq<char>) -> Seq<Seq<char>> {
    words(line.skip(prefix.len() as int))
}

/// The counters of a protocol: the first line with its prefix holds their names, the second their
/// values.
pub open spec fn columns_of(text: Seq<char>, prefix: Seq<char>) -> Option<ColumnsView> {
    let ls = lines_with(lines(text), prefix);
    if ls.len() < 2 {
        None
    } else {
        Some(
            ColumnsView {
                names: words_behind(ls[0], prefix),
                values: words_behind(ls[1], prefix),
            },
        )
    }
}

/// The value below a name, the last one where the name comes more than once. Where `fold` is
/// given, the case of letters does not matter.
pub open spec fn value_below(c: ColumnsView, name: Seq<char>, fold: bool, n: nat) -> Option<
    Seq<char>,
>
    decreases n,
{
    if n == 0 {
        None
    } else {
        let k = n - 1;
        let same = if fold {
            lowered(c.names[k]) == lowered(name)
        } else {
            c.names[k] == name
        };
        if same {
            Some(c.values[k])
        } else {
            value_below(c, name, fold, k as nat)
        }
    }
}

/// How many names have a value.
pub open spec fn pairs(c: ColumnsView) -> nat {
    if c.names.len() < c.values.len() {
        c.names.len()
    } else {
        c.values.len()
    }
}

/// The counter below a name; zero if there is none or it is no number.
pub open spec fn counter_of(c: ColumnsView, name: Seq<char>, fold: bool) -> u32 {
    match value_below(c, name, fold, pairs(c)) {
        Some(v) => match unsigned_value(v, 10, u32::MAX as nat) {
            Some(n) => n as u32,
            None => 0,
        },
        None => 0,
    }
}

/// The signed number below a name; zero if there is none or it is no number.
pub open spec fn number_of(c: ColumnsView, name: Seq<char>) -> i64 {
    match value_below(c, name, false, pairs(c)) {
        Some(v) => match signed_value(v, i64::MIN as int, i64::MAX as int) {
            Some(n) => n as i64,
            None => 0,
        },
        None => 0,
    }
}

/// The names and the values of counters.
pub struct Columns {
    names: Vec<Vec<char>>,
    values: Vec<Vec<char>>,
}

impl View for Columns {
    type V = ColumnsView;

    closed spec fn view(&self) -> ColumnsView {
        ColumnsView { names: texts(self.names@), values: texts(self.values@) }
    }
}

fn next_line_with(ls: &Vec<Vec<char>>, from: usize, prefix: &str) -> (r: usize)
    requires
        from <= ls@.len(),
    ensures
        from <= r <= ls@.len(),
        r < ls@.len() ==> starts_with(ls@[r as int]@, prefix@),
        lines_with(texts(ls@).take(r as int), prefix@) == lines_with(
            texts(ls@).take(from as int),
            prefix@,
        ),
{
    let ghost all = texts(ls@);
    let mut i: usize = from;
    while i < ls.len()
        invariant
            from <= i <= ls@.len(),
            all == texts(ls@),
            lines_with(all.take(i as int), prefix@) == lines_with(all.take(from as int), prefix@),
        decreases ls@.len() - i,
    {
        if begins_with(ls[i].as_slice(), prefix) {
            return i;
        }
        proof {
            assert(all.take(i + 1).drop_last() =~= all.take(i as int));
            assert(all.take(i + 1).last() == ls@[i as int]@);
        }
        i += 1;
    }
    i
}

proof fn lemma_lines_with_grow(ls: Seq<Seq<char>>, prefix: Seq<char>, n: int)
    requires
        0 <= n <= ls.len(),
    ensures
        lines_with(ls.take(n), prefix).len() <= lines_with(ls, prefix).len(),
        forall|k: int|
            0 <= k < lines_with(ls.take(n), prefix).len() ==> #[trigger] lines_with(
                ls.take(n),
                prefix,
            )[k] == lines_with(ls, prefix)[k],
    decreases ls.len(),
{
    if n < ls.len() {
        lemma_lines_with_grow(ls.drop_last(), prefix, n);
        assert(ls.drop_last().take(n) =~= ls.take(n));
    } else {
        assert(ls.take(n) =~= ls);
    }
}

fn split_behind(line: &Vec<char>, prefix: &str) -> (r: Vec<Vec<char>>)
    requires
        starts_with(line@, prefix@),
    ensures
        texts(r@) == words_behind(line@, prefix@),
{
    let n: usize = prefix.unicode_len();
    let tail = slice_of(line.as_slice(), n, line.len());
    assert(tail@ =~= line@.skip(prefix@.len() as int));
    split_words(tail.as_slice())
}

/// The counters of a protocol.
pub fn find_columns(text: &str, prefix: &str) -> (r: Option<Columns>)
    ensures
        (match r {
            Some(c) => Some(c@),
            None => None,
        }) == columns_of(text@, prefix@),
{
    let v = chars_of(text);
    let ls = split_lines(v.as_slice());
    let ghost all = texts(ls@);
    let ghost found = lines_with(all, prefix@);
    proof {
        assert(all.take(0) =~= Seq::<Seq<char>>::empty());
        assert(all.take(all.len() as int) =~= all);
    }
    let a: usize = next_line_with(&ls, 0, prefix);
    if a >= ls.len() {
        return None;
    }
    proof {
        assert(all.take(a + 1).drop_last() =~= all.take(a as int));
        assert(all.take(a + 1).last() == ls@[a as int]@);
        lemma_lines_with_grow(all, prefix@, a + 1);
        assert(lines_with(all.take(a + 1), prefix@)[0] == ls@[a as int]@);
    }
    let b: usize = next_line_with(&ls, a + 1, prefix);
    if b >= ls.len() {
        return None;
    }
    proof {
        assert(all.take(b + 1).drop_last() =~= all.take(b as int));
        assert(all.take(b + 1).last() == ls@[b as int]@);
        lemma_lines_with_grow(all, prefix@, b + 1);
        assert(lines_with(all.take(b + 1), prefix@)[1] == ls@[b as int]@);
    }
    let names = split_behind(&ls[a], prefix);
    let values = split_behind(&ls[b], prefix);
    Some(Columns { names, values })
}

impl Columns {
    fn below(&self, name: &str, fold: bool) -> (r: Option<usize>)
        ensures
            match r {
                Some(k) => k < self.values@.len() && value_below(self@, name@, fold, pairs(self@))
                    == Some(self.values@[k as int]@),
                None => value_below(self@, name@, fold, pairs(self@)) is None,
            },
    {
        let mut n: usize = if self.names.len() < self.values.len() {
            self.names.len()
        } else {
            self.values.len()
        };
        while n > 0
            invariant
                n <= self.names@.len(),
                n <= self.values@.len(),
                value_below(self@, name@, fold, pairs(self@)) == value_below(
                    self@,
                    name@,
                    fold,
                    n as nat,
                ),
            decreases n,
        {
            assert(self@.names[n - 1] == self.names@[n - 1]@);
            assert(self@.values[n - 1] == self.values@[n - 1]@);
            let same = if fold {
                same_word(self.names[n - 1].as_slice(), name)
            } else {
                chars_are(self.names[n - 1].as_slice(), name)
            };
            if same {
                return Some(n - 1);
            }
            n -= 1;
        }
        None
    }

    /// The counter below a name.
    pub fn counter(&self, name: &str, fold: bool) -> (r: u32)
        ensures
            r == counter_of(self@, name@, fold),
    {
        match self.below(name, fold) {
            Some(k) => match parse_unsigned(self.values[k].as_slice(), 10, u32::MAX as u64) {
                Some(n) => n as u32,
                None => 0,
            },
            None => 0,
        }
    }

    /// The signed number below a name.
    pub fn number(&self, name: &str) -> (r: i64)
        ensures
            r == number_of(self@, name@),
    {
        match self.below(name, false) {
            Some(k) => match parse_i64(self.values[k].as_slice()) {
                Some(n) => n,
                None => 0,
            },
            None => 0,
        }
    }
}

/// The address that eight hexadecimal digits stand for, its first octet last.
pub open spec fn hex_ipv4(s: Seq<char>) -> Option<Ipv4Addr> {
    let t = trim(s);
    if t.len() != 8 {
        None
    } else {
        match unsigned_value(t, 16, u32::MAX as nat) {
            Some(n) => Some(Ipv4Addr::from_low_first(n as u32)),
            None => None,
        }
    }
}

/// The address that eight hexadecimal digits stand for.
pub fn parse_hex_ipv4(s: &[char]) -> (r: Option<Ipv4Addr>)
    ensures
        r == hex_ipv4(s@),
{
    let t = trimmed(s);
    if t.len() != 8 {
        return None;
    }
    match parse_unsigned(t.as_slice(), 16, u32::MAX as u64) {
        Some(n) => Some(Ipv4Addr::of_low_first(n as u32)),
        None => None,
    }
}

/// The port that hexadecimal digits stand for.
pub open spec fn hex_port(s: Seq<char>) -> Option<u16> {
    match unsigned_value(trim(s), 16, u16::MAX as nat) {
        Some(n) => Some(n as u16),
        None => None,
    }
}

/// The port that hexadecimal digits stand for.
pub fn parse_hex_port(s: &[char]) -> (r: Option<u16>)
    ensures
        r == hex_port(s@),
{
    let t = trimmed(s);
    match parse_unsigned(t.as_slice(), 16, u16::MAX as u64) {
        Some(n) => Some(n as u16),
        None => None,
    }
}

/// The address and the port of a word `address:port`.
pub open spec fn endpoint_of(s: Seq<char>) -> Option<(Ipv4Addr, u16)> {
    let n = find_char(s, ':');
    if n >= s.len() {
        None
    } else {
        match (hex_ipv4(s.take(n as int)), hex_port(s.skip(n as int + 1))) {
            (Some(a), Some(p)) => Some((a, p)),
            _ => None,
        }
    }
}

/// The address and the port of a word `address:port`.
pub fn parse_endpoint(s: &[char]) -> (r: Option<(Ipv4Addr, u16)>)
    ensures
        r == endpoint_of(s@),
{
    assert(s@.skip(0) =~= s@);
    let n: usize = position(s, 0, ':');
    if n >= s.len() {
        return None;
    }
    let a = slice_of(s, 0, n);
    let p = slice_of(s, n + 1, s.len());
    assert(a@ =~= s@.take(n as int));
    assert(p@ =~= s@.skip(n as int + 1));
    match (parse_hex_ipv4(a.as_slice()), parse_hex_port(p.as_slice())) {
        (Some(addr), Some(port)) => Some((addr, port)),
        _ => None,
    }
}

/// The lines of a text below its heading.
pub open spec fn below_heading(text: Seq<char>) -> Seq<Seq<char>> {
    let ls = lines(text);
    if ls.len() > 0 {
        ls.skip(1)
    } else {
        ls
    }
}

/// The lines of a text below its heading.
pub fn rows_below(text: &str) -> (r: Vec<Vec<char>>)
    ensures
        texts(r@) == below_heading(text@),
{
    let v = chars_of(text);
    let mut ls = split_lines(v.as_slice());
    let ghost all = texts(ls@);
    if ls.len() > 0 {
        let _ = ls.remove(0);
        assert(texts(ls@) =~= all.skip(1));
    }
    ls
}

/// A word without the `0x` before it.
pub open spec fn without_0x(s: Seq<char>) -> Seq<char>
    decreases s.len(),
{
    if s.len() >= 2 && s[0] == '0' && s[1] == 'x' {
        without_0x(s.skip(2))
    } else {
        s
    }
}

/// Whether the bit `0x2` is set in a hexadecimal word; it is not if the word is no number.
pub open spec fn has_second_bit(s: Seq<char>) -> bool {
    match unsigned_value(without_0x(s), 16, u32::MAX as nat) {
        Some(n) => (n / 2) % 2 == 1,
        None => false,
    }
}

/// Whether the bit `0x2` is set in a hexadecimal word.
pub fn second_bit(s: &[char]) -> (r: bool)
    ensures
        r == has_second_bit(s@),
{
    let mut i: usize = 0;
    assert(s@.skip(0) =~= s@);
    while s.len() - i >= 2 && s[i] == '0' && s[i + 1] == 'x'
        invariant
            i <= s@.len(),
            without_0x(s@) == without_0x(s@.skip(i as int)),
        decreases s@.len() - i,
    {
        proof {
            let rest = s@.skip(i as int);
            assert(rest[0] == s@[i as int] && rest[1] == s@[i + 1]);
            assert(rest.skip(2) =~= s@.skip(i + 2));
        }
        i += 2;
    }
    let t = slice_of(s, i, s.len());
    proof {
        let rest = s@.skip(i as int);
        assert(t@ =~= rest);
        if rest.len() >= 2 {
            assert(rest[0] == s@[i as int] && rest[1] == s@[i + 1]);
        }
    }
    match parse_unsigned(t.as_slice(), 16, u32::MAX as u64) {
        Some(n) => (n / 2) % 2 == 1,
        None => false,
    }
}

} // verus!
