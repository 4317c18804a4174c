//! Stable sorting of records by a key.

use vstd::prelude::*;

use crate::oid::lex_lt;
use crate::oid::lex_lt_asymmetric;
use crate::oid::lex_lt_irreflexive;
use crate::oid::lex_lt_total;
use crate::oid::lex_lt_transitive;
use crate::oid::Oid;
use crate::text::chars_of;

verus! {

/// A record that is ordered by a key.
pub trait Keyed: Sized {
    /// The key.
    spec fn key(&self) -> Seq<u32>;

    /// Whether the key of this record comes before that of the other.
    fn before(&self, other: &Self) -> (r: bool)
        ensures
            r == lex_lt(self.key(), other.key()),
    ;
}

/// A text as a key: one number per character.
pub open spec fn text_key(s: Seq<char>) -> Seq<u32> {
    s.map_values(|c: char| c as u32)
}

/// Whether one text comes before another.
pub fn text_before(a: &str, b: &str) -> (r: bool)
    ensures
        r == lex_lt(text_key(a@), text_key(b@)),
{
    let x = text_arcs(a);
    let y = text_arcs(b);
    Oid::new(x).before(&Oid::new(y))
}

fn text_arcs(s: &str) -> (r: Vec<u32>)
    ensures
        r@ == text_key(s@),
{
    let v = chars_of(s);
    let mut out: Vec<u32> = Vec::new();
    let mut i: usize = 0;
    while i < v.len()
        invariant
            i <= v@.len(),
            out@ =~= text_key(v@.take(i as int)),
        decreases v@.len() - i,
    {
        out.push(v[i] as u32);
        i += 1;
    }
    assert(v@.take(i as int) =~= v@);
    out
}

proof fn lemma_same_char(a: char, b: char)
    requires
        a as u32 == b as u32,
    ensures
        a == b,
{
}

/// Two texts with one key are the same text.
pub proof fn text_key_is_injective(a: Seq<char>, b: Seq<char>)
    requires
        text_key(a) == text_key(b),
    ensures
        a == b,
{
    assert(a.len() == text_key(a).len());
    assert(b.len() == text_key(b).len());
    assert forall|i: int| 0 <= i < a.len() implies a[i] == b[i] by {
        assert(text_key(a)[i] == a[i] as u32);
        assert(text_key(b)[i] == b[i] as u32);
        lemma_same_char(a[i], b[i]);
    }
    assert(a =~= b);
}

/// Whether no record comes after one with a greater key.
pub open spec fn is_ordered<T: Keyed>(s: Seq<T>) -> bool {
    forall|i: int, j: int|
        #![trigger s[i], s[j]]
        0 <= i < j < s.len() ==> !lex_lt(s[j].key(), s[i].key())
}

/// The records with a given key, in order.
pub open spec fn with_key<T: Keyed>(s: Seq<T>, k: Seq<u32>) -> Seq<T> {
    s.filter(|x: T| x.key() == k)
}

/// Whether `r` holds the records of `s` in the order of their keys, those with one key in their
/// given order.
pub open spec fn is_stable_sort_of<T: Keyed>(r: Seq<T>, s: Seq<T>) -> bool {
    &&& is_ordered(r)
    &&& forall|k: Seq<u32>| #[trigger] with_key(r, k) == with_key(s, k)
}

proof fn lemma_with_key_push<T: Keyed>(s: Seq<T>, x: T, k: Seq<u32>)
    ensures
        with_key(s.push(x), k) == if x.key() == k {
            with_key(s, k).push(x)
        } else {
            with_key(s, k)
        },
{
    reveal(Seq::filter);
    assert(s.push(x).drop_last() =~= s);
}

proof fn lemma_with_key_none<T: Keyed>(s: Seq<T>, k: Seq<u32>)
    requires
        forall|i: int| 0 <= i < s.len() ==> (#[trigger] s[i]).key() != k,
    ensures
        with_key(s, k) == Seq::<T>::empty(),
    decreases s.len(),
{
    reveal(Seq::filter);
    if s.len() > 0 {
        let t = s.drop_last();
        assert forall|i: int| 0 <= i < t.len() implies (#[trigger] t[i]).key() != k by {
            assert(t[i] == s[i]);
        }
        lemma_with_key_none(t, k);
        assert(s[s.len() - 1].key() != k);
    }
}

proof fn lemma_ordered_insert<T: Keyed>(s: Seq<T>, p: int, x: T)
    requires
        is_ordered(s),
        0 <= p <= s.len(),
        forall|i: int| 0 <= i < p ==> !lex_lt(x.key(), (#[trigger] s[i]).key()),
        forall|i: int| p <= i < s.len() ==> lex_lt(x.key(), (#[trigger] s[i]).key()),
    ensures
        is_ordered(s.insert(p, x)),
        forall|k: Seq<u32>| #[trigger]
            with_key(s.insert(p, x), k) == with_key(s.push(x), k),
{
    let n = s.insert(p, x);
    assert forall|i: int, j: int| #![trigger n[i], n[j]] 0 <= i < j < n.len() implies !lex_lt(
        n[j].key(),
        n[i].key(),
    ) by {
        let a = if i < p {
            s[i]
        } else if i == p {
            x
        } else {
            s[i - 1]
        };
        let b = if j < p {
            s[j]
        } else if j == p {
            x
        } else {
            s[j - 1]
        };
        assert(n[i] == a && n[j] == b);
        if i == p {
            lex_lt_asymmetric(x.key(), s[j - 1].key());
        }
    }
    let front = s.take(p);
    let back = s.skip(p);
    assert forall|k: Seq<u32>| #[trigger] with_key(n, k) == with_key(s.push(x), k) by {
        let pred = |y: T| y.key() == k;
        assert(n =~= front.push(x) + back);
        assert(s =~= front + back);
        Seq::filter_distributes_over_add(front.push(x), back, pred);
        Seq::filter_distributes_over_add(front, back, pred);
        lemma_with_key_push(front, x, k);
        lemma_with_key_push(s, x, k);
        if x.key() == k {
            assert forall|i: int| 0 <= i < back.len() implies (#[trigger] back[i]).key() != k by {
                assert(back[i] == s[i + p]);
                lex_lt_irreflexive(k);
            }
            lemma_with_key_none(back, k);
            assert(with_key(n, k) =~= with_key(front, k).push(x));
            assert(with_key(s.push(x), k) =~= with_key(front, k).push(x));
        }
    }
}

/// A list from its end to its start.
pub open spec fn reversed<T>(v: Seq<T>) -> Seq<T> {
    Seq::new(v.len(), |i: int| v[v.len() - 1 - i])
}

/// A list from its end to its start.
pub fn into_reversed<T>(v: Vec<T>) -> (r: Vec<T>)
    ensures
        r@ == reversed(v@),
{
    let mut rest = v;
    let ghost all = rest@;
    let mut out: Vec<T> = Vec::new();
    while rest.len() > 0
        invariant
            rest@.len() + out@.len() == all.len(),
            forall|i: int| 0 <= i < rest@.len() ==> #[trigger] rest@[i] == all[i],
            forall|i: int| 0 <= i < out@.len() ==> #[trigger] out@[i] == all[all.len() - 1 - i],
        decreases rest@.len(),
    {
        if let Some(x) = rest.pop() {
            out.push(x);
        }
    }
    assert(out@ =~= reversed(all));
    out
}

/// The records in the order of their keys.
pub fn stable_sort<T: Keyed>(v: Vec<T>) -> (r: Vec<T>)
    ensures
        is_stable_sort_of(r@, v@),
        r@.len() == v@.len(),
{
    let ghost all = v@;
    let mut todo = into_reversed(v);
    let mut out: Vec<T> = Vec::new();
    assert(all.take(0) =~= out@);
    while todo.len() > 0
        invariant
            out@.len() + todo@.len() == all.len(),
            forall|i: int|
                0 <= i < todo@.len() ==> #[trigger] todo@[i] == all[all.len() - 1 - i],
            is_stable_sort_of(out@, all.take(out@.len() as int)),
        decreases todo@.len(),
    {
        let ghost n = out@.len() as int;
        assert(todo@[todo@.len() - 1] == all[n]);
        if let Some(x) = todo.pop() {
            insert_ordered(&mut out, x, Ghost(all.take(n)));
            assert(all.take(n + 1) =~= all.take(n).push(x));
        }
    }
    assert(all.take(out@.len() as int) =~= all);
    out
}

/// Put one record behind those whose key is not greater.
fn insert_ordered<T: Keyed>(out: &mut Vec<T>, x: T, done: Ghost<Seq<T>>)
    requires
        is_stable_sort_of(old(out)@, done@),
    ensures
        is_stable_sort_of(final(out)@, done@.push(x)),
        final(out)@.len() == old(out)@.len() + 1,
{
    let ghost before = out@;
    let mut p: usize = out.len();
    while p > 0 && x.before(&out[p - 1])
        invariant
            p <= out@.len(),
            out@ == before,
            forall|i: int|
                p <= i < before.len() ==> lex_lt(x.key(), (#[trigger] before[i]).key()),
        decreases p,
    {
        p -= 1;
    }
    proof {
        assert forall|i: int| 0 <= i < p implies !lex_lt(
            x.key(),
            (#[trigger] before[i]).key(),
        ) by {
            if i < p - 1 && lex_lt(x.key(), before[i].key()) {
                let last = before[p - 1].key();
                assert(!lex_lt(last, before[i].key()));
                lex_lt_total(last, before[i].key());
                if lex_lt(before[i].key(), last) {
                    lex_lt_transitive(x.key(), before[i].key(), last);
                }
            }
        }
        lemma_ordered_insert(before, p as int, x);
        assert forall|k: Seq<u32>| #[trigger] with_key(before.insert(p as int, x), k) == with_key(
            done@.push(x),
            k,
        ) by {
            lemma_with_key_push(done@, x, k);
            lemma_with_key_push(before, x, k);
            assert(with_key(before, k) == with_key(done@, k));
        }
    }
    out.insert(p, x);
}

} // verus!
