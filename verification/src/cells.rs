//! Instance cells: lists of (OID, value) pairs, their ordering and lookup.

use vstd::prelude::*;

use crate::oid::lex_lt;
use crate::oid::lex_lt_asymmetric;
use crate::oid::lex_lt_irreflexive;
use crate::oid::lex_lt_total;
use crate::oid::lex_lt_transitive;
use crate::oid::Oid;
use crate::value::Value;
use crate::value::ValueView;

verus! {

/// The mathematical content of one cell.
pub type CellView = (Seq<u32>, ValueView);

/// The contents of a list of cells.
pub open spec fn cells(v: Seq<(Oid, Value)>) -> Seq<CellView> {
    v.map_values(|c: (Oid, Value)| (c.0@, c.1@))
}

/// Whether no cell comes after one with a greater OID.
pub open spec fn is_sorted(s: Seq<CellView>) -> bool {
    forall|i: int, j: int|
        #![trigger s[i], s[j]]
        0 <= i < j < s.len() ==> !lex_lt(s[j].0, s[i].0)
}

/// Whether the OIDs increase from cell to cell.
pub open spec fn is_increasing(s: Seq<CellView>) -> bool {
    forall|i: int, j: int|
        #![trigger s[i], s[j]]
        0 <= i < j < s.len() ==> lex_lt(s[i].0, s[j].0)
}

/// The cells of `s` named `oid`, in order.
pub open spec fn named(s: Seq<CellView>, oid: Seq<u32>) -> Seq<CellView> {
    s.filter(|c: CellView| c.0 == oid)
}

/// Whether `r` holds the cells of `s` sorted by OID, cells of one OID in their given order.
pub open spec fn is_sort_of(r: Seq<CellView>, s: Seq<CellView>) -> bool {
    &&& is_sorted(r)
    &&& forall|oid: Seq<u32>| #[trigger] named(r, oid) == named(s, oid)
}

/// The map from OID to value, a later cell replacing an earlier one of the same OID.
pub open spec fn cell_map(s: Seq<CellView>) -> Map<Seq<u32>, ValueView>
    decreases s.len(),
{
    if s.len() == 0 {
        Map::empty()
    } else {
        cell_map(s.drop_last()).insert(s.last().0, s.last().1)
    }
}

/// Whether `r` lists, in increasing order, the map that the cells `s` make.
pub open spec fn is_table_of(r: Seq<CellView>, s: Seq<CellView>) -> bool {
    &&& is_increasing(r)
    &&& cell_map(r) == cell_map(s)
}

/// The value of the first cell named `oid`.
pub open spec fn find(s: Seq<CellView>, oid: Seq<u32>) -> Option<ValueView>
    decreases s.len(),
{
    if s.len() == 0 {
        None
    } else if s[0].0 == oid {
        Some(s[0].1)
    } else {
        find(s.drop_first(), oid)
    }
}

/// The first cell whose OID comes after `oid`.
pub open spec fn find_next(s: Seq<CellView>, oid: Seq<u32>) -> Option<CellView>
    decreases s.len(),
{
    if s.len() == 0 {
        None
    } else if lex_lt(oid, s[0].0) {
        Some(s[0])
    } else {
        find_next(s.drop_first(), oid)
    }
}

pub proof fn lemma_find_at(s: Seq<CellView>, oid: Seq<u32>, i: int)
    requires
        0 <= i < s.len(),
        s[i].0 == oid,
        forall|k: int| 0 <= k < i ==> s[k].0 != oid,
    ensures
        find(s, oid) == Some(s[i].1),
    decreases i,
{
    if i > 0 {
        assert(s[0].0 != oid);
        assert(s.drop_first()[i - 1] == s[i]);
        assert forall|k: int| 0 <= k < i - 1 implies s.drop_first()[k].0 != oid by {
            assert(s.drop_first()[k] == s[k + 1]);
        }
        lemma_find_at(s.drop_first(), oid, i - 1);
    }
}

pub proof fn lemma_find_none(s: Seq<CellView>, oid: Seq<u32>)
    requires
        forall|k: int| 0 <= k < s.len() ==> s[k].0 != oid,
    ensures
        find(s, oid) is None,
    decreases s.len(),
{
    if s.len() > 0 {
        assert(s[0].0 != oid);
        assert forall|k: int| 0 <= k < s.drop_first().len() implies s.drop_first()[k].0 != oid by {
            assert(s.drop_first()[k] == s[k + 1]);
        }
        lemma_find_none(s.drop_first(), oid);
    }
}

pub proof fn lemma_find_next_at(s: Seq<CellView>, oid: Seq<u32>, i: int)
    requires
        0 <= i <= s.len(),
        i < s.len() ==> lex_lt(oid, s[i].0),
        forall|k: int| 0 <= k < i ==> !lex_lt(oid, s[k].0),
    ensures
        find_next(s, oid) == if i < s.len() {
            Some(s[i])
        } else {
            None::<CellView>
        },
    decreases i,
{
    if i > 0 {
        assert(!lex_lt(oid, s[0].0));
        if i < s.len() {
            assert(s.drop_first()[i - 1] == s[i]);
        }
        assert forall|k: int| 0 <= k < i - 1 implies !lex_lt(oid, s.drop_first()[k].0) by {
            assert(s.drop_first()[k] == s[k + 1]);
        }
        lemma_find_next_at(s.drop_first(), oid, i - 1);
    }
}

/// What a map lookup gives on an increasing list is what the map holds.
pub proof fn find_is_map_lookup(s: Seq<CellView>, oid: Seq<u32>)
    requires
        is_increasing(s),
    ensures
        find(s, oid) is Some <==> cell_map(s).contains_key(oid),
        find(s, oid) matches Some(v) ==> cell_map(s)[oid] == v,
    decreases s.len(),
{
    lemma_map_entries(s);
    if exists|i: int| 0 <= i < s.len() && s[i].0 == oid {
        let i = choose|i: int| 0 <= i < s.len() && s[i].0 == oid;
        assert forall|k: int| 0 <= k < i implies s[k].0 != oid by {
            assert(lex_lt(s[k].0, s[i].0));
            lex_lt_irreflexive(oid);
        }
        lemma_find_at(s, oid, i);
    } else {
        lemma_find_none(s, oid);
    }
}

/// The entries of the map of an increasing list are its cells.
pub proof fn lemma_map_entries(s: Seq<CellView>)
    requires
        is_increasing(s),
    ensures
        forall|i: int|
            #![trigger s[i]]
            0 <= i < s.len() ==> cell_map(s).contains_key(s[i].0) && cell_map(s)[s[i].0] == s[i].1,
        forall|oid: Seq<u32>| #[trigger]
            cell_map(s).contains_key(oid) ==> exists|i: int| 0 <= i < s.len() && s[i].0 == oid,
    decreases s.len(),
{
    if s.len() > 0 {
        let t = s.drop_last();
        assert forall|i: int, j: int| #![trigger t[i], t[j]] 0 <= i < j < t.len() implies lex_lt(
            t[i].0,
            t[j].0,
        ) by {
            assert(t[i] == s[i]);
            assert(t[j] == s[j]);
        }
        lemma_map_entries(t);
        assert forall|i: int| #![trigger s[i]] 0 <= i < s.len() implies cell_map(s).contains_key(
            s[i].0,
        ) && cell_map(s)[s[i].0] == s[i].1 by {
            if i < s.len() - 1 {
                assert(t[i] == s[i]);
                assert(lex_lt(s[i].0, s[s.len() - 1].0));
                lex_lt_irreflexive(s[i].0);
            }
        }
        assert forall|oid: Seq<u32>| #[trigger] cell_map(s).contains_key(oid) implies exists|i: int|
            0 <= i < s.len() && s[i].0 == oid by {
            if oid == s.last().0 {
                assert(s[s.len() - 1].0 == oid);
            } else {
                assert(cell_map(t).contains_key(oid));
                let i = choose|i: int| 0 <= i < t.len() && t[i].0 == oid;
                assert(s[i] == t[i]);
            }
        }
    }
}

/// An increasing list is sorted.
pub proof fn lemma_increasing_sorted(s: Seq<CellView>)
    requires
        is_increasing(s),
    ensures
        is_sorted(s),
{
    assert forall|i: int, j: int| #![trigger s[i], s[j]] 0 <= i < j < s.len() implies !lex_lt(
        s[j].0,
        s[i].0,
    ) by {
        lex_lt_asymmetric(s[i].0, s[j].0);
    }
}

/// A GETNEXT over a sorted list answers the least OID after the one asked for, and fails
/// only when there is none.
pub proof fn find_next_is_least(s: Seq<CellView>, oid: Seq<u32>)
    requires
        is_sorted(s),
    ensures
        find_next(s, oid) matches Some(c) ==> s.contains(c) && lex_lt(oid, c.0) && forall|k: int|
            0 <= k < s.len() && lex_lt(oid, #[trigger] s[k].0) ==> !lex_lt(s[k].0, c.0),
        find_next(s, oid) is None ==> forall|k: int|
            0 <= k < s.len() ==> !lex_lt(oid, #[trigger] s[k].0),
    decreases s.len(),
{
    if s.len() > 0 {
        if lex_lt(oid, s[0].0) {
            assert(s.contains(s[0]));
            lex_lt_irreflexive(s[0].0);
        } else {
            let t = s.drop_first();
            assert forall|i: int, j: int| #![trigger t[i], t[j]]
                0 <= i < j < t.len() implies !lex_lt(t[j].0, t[i].0) by {
                assert(t[i] == s[i + 1]);
                assert(t[j] == s[j + 1]);
            }
            find_next_is_least(t, oid);
            match find_next(s, oid) {
                Some(c) => {
                    let i = choose|i: int| 0 <= i < t.len() && t[i] == c;
                    assert(s[i + 1] == c);
                    assert forall|k: int| 0 <= k < s.len() && lex_lt(
                        oid,
                        #[trigger] s[k].0,
                    ) implies !lex_lt(s[k].0, c.0) by {
                        if k > 0 {
                            assert(t[k - 1] == s[k]);
                        }
                    }
                },
                None => {
                    assert forall|k: int| 0 <= k < s.len() implies !lex_lt(
                        oid,
                        #[trigger] s[k].0,
                    ) by {
                        if k > 0 {
                            assert(t[k - 1] == s[k]);
                        }
                    }
                },
            }
        }
    }
}

/// The first position whose OID comes after `oid`.
pub fn upper_bound(v: &[(Oid, Value)], oid: &Oid) -> (r: usize)
    requires
        is_sorted(cells(v@)),
    ensures
        r <= v@.len(),
        forall|k: int| 0 <= k < r ==> !lex_lt(oid@, #[trigger] cells(v@)[k].0),
        forall|k: int| r <= k < v@.len() ==> lex_lt(oid@, #[trigger] cells(v@)[k].0),
{
    let ghost s = cells(v@);
    let mut lo: usize = 0;
    let mut hi: usize = v.len();
    while lo < hi
        invariant
            lo <= hi <= v@.len(),
            s == cells(v@),
            is_sorted(s),
            forall|k: int| 0 <= k < lo ==> !lex_lt(oid@, #[trigger] s[k].0),
            forall|k: int| hi <= k < v@.len() ==> lex_lt(oid@, #[trigger] s[k].0),
        decreases hi - lo,
    {
        let mid: usize = lo + (hi - lo) / 2;
        assert(s[mid as int].0 == v@[mid as int].0@);
        if oid.before(&v[mid].0) {
            assert forall|k: int| mid <= k < v@.len() implies lex_lt(oid@, #[trigger] s[k].0) by {
                if k > mid {
                    assert(!lex_lt(s[k].0, s[mid as int].0));
                    lex_lt_total(s[k].0, s[mid as int].0);
                    if lex_lt(s[mid as int].0, s[k].0) {
                        lex_lt_transitive(oid@, s[mid as int].0, s[k].0);
                    }
                }
            }
            hi = mid;
        } else {
            assert forall|k: int| 0 <= k <= mid implies !lex_lt(oid@, #[trigger] s[k].0) by {
                if k < mid && lex_lt(oid@, s[k].0) {
                    assert(!lex_lt(s[mid as int].0, s[k].0));
                    lex_lt_total(s[mid as int].0, s[k].0);
                    if lex_lt(s[k].0, s[mid as int].0) {
                        lex_lt_transitive(oid@, s[k].0, s[mid as int].0);
                    }
                }
            }
            lo = mid + 1;
        }
    }
    lo
}

/// The first position whose OID does not come before `oid`.
pub fn lower_bound(v: &[(Oid, Value)], oid: &Oid) -> (r: usize)
    requires
        is_sorted(cells(v@)),
    ensures
        r <= v@.len(),
        forall|k: int| 0 <= k < r ==> lex_lt(#[trigger] cells(v@)[k].0, oid@),
        forall|k: int| r <= k < v@.len() ==> !lex_lt(#[trigger] cells(v@)[k].0, oid@),
{
    let ghost s = cells(v@);
    let mut lo: usize = 0;
    let mut hi: usize = v.len();
    while lo < hi
        invariant
            lo <= hi <= v@.len(),
            s == cells(v@),
            is_sorted(s),
            forall|k: int| 0 <= k < lo ==> lex_lt(#[trigger] s[k].0, oid@),
            forall|k: int| hi <= k < v@.len() ==> !lex_lt(#[trigger] s[k].0, oid@),
        decreases hi - lo,
    {
        let mid: usize = lo + (hi - lo) / 2;
        assert(s[mid as int].0 == v@[mid as int].0@);
        if v[mid].0.before(oid) {
            assert forall|k: int| 0 <= k <= mid implies lex_lt(#[trigger] s[k].0, oid@) by {
                if k < mid {
                    assert(!lex_lt(s[mid as int].0, s[k].0));
                    lex_lt_total(s[mid as int].0, s[k].0);
                    if lex_lt(s[k].0, s[mid as int].0) {
                        lex_lt_transitive(s[k].0, s[mid as int].0, oid@);
                    }
                }
            }
            lo = mid + 1;
        } else {
            assert forall|k: int| mid <= k < v@.len() implies !lex_lt(#[trigger] s[k].0, oid@) by {
                if k > mid && lex_lt(s[k].0, oid@) {
                    assert(!lex_lt(s[k].0, s[mid as int].0));
                    lex_lt_total(s[k].0, s[mid as int].0);
                    if lex_lt(s[mid as int].0, s[k].0) {
                        lex_lt_transitive(s[mid as int].0, s[k].0, oid@);
                    }
                }
            }
            hi = mid;
        }
    }
    lo
}

/// The value of the first cell named `oid` in a sorted list.
pub fn lookup(v: &[(Oid, Value)], oid: &Oid) -> (r: Option<Value>)
    requires
        is_sorted(cells(v@)),
    ensures
        r is Some <==> find(cells(v@), oid@) is Some,
        r matches Some(x) ==> find(cells(v@), oid@) == Some(x@),
{
    let i: usize = lower_bound(v, oid);
    let ghost s = cells(v@);
    proof {
        lex_lt_irreflexive(oid@);
    }
    if i < v.len() && v[i].0.same(oid) {
        proof {
            assert(s[i as int].0 == oid@);
            lemma_find_at(s, oid@, i as int);
        }
        Some(v[i].1.clone())
    } else {
        proof {
            assert forall|k: int| 0 <= k < s.len() implies s[k].0 != oid@ by {
                if k >= i {
                    assert(!lex_lt(s[i as int].0, oid@));
                    assert(s[i as int].0 != oid@);
                    lex_lt_total(s[i as int].0, oid@);
                    if k > i {
                        assert(!lex_lt(s[k].0, s[i as int].0));
                    }
                }
            }
            lemma_find_none(s, oid@);
        }
        None
    }
}

/// The first cell of a sorted list whose OID comes after `oid`.
pub fn lookup_next(v: &[(Oid, Value)], oid: &Oid) -> (r: Option<(Oid, Value)>)
    requires
        is_sorted(cells(v@)),
    ensures
        r is Some <==> find_next(cells(v@), oid@) is Some,
        r matches Some(c) ==> find_next(cells(v@), oid@) == Some((c.0@, c.1@)),
{
    let i: usize = upper_bound(v, oid);
    proof {
        lemma_find_next_at(cells(v@), oid@, i as int);
    }
    if i < v.len() {
        Some((v[i].0.clone(), v[i].1.clone()))
    } else {
        None
    }
}

/// A copy of the cells `v`.
pub fn copy_cells(v: &[(Oid, Value)]) -> (r: Vec<(Oid, Value)>)
    ensures
        cells(r@) == cells(v@),
{
    let mut out: Vec<(Oid, Value)> = Vec::new();
    let mut i: usize = 0;
    while i < v.len()
        invariant
            i <= v@.len(),
            cells(out@) == cells(v@.take(i as int)),
        decreases v@.len() - i,
    {
        let ghost before = out@;
        out.push((v[i].0.clone(), v[i].1.clone()));
        proof {
            let c = (v@[i as int].0@, v@[i as int].1@);
            assert(cells(out@) =~= cells(before).push(c));
            assert(cells(v@.take(i + 1)) =~= cells(v@.take(i as int)).push(c));
        }
        i += 1;
    }
    assert(v@.take(i as int) =~= v@);
    out
}

proof fn lemma_named_push(s: Seq<CellView>, c: CellView, oid: Seq<u32>)
    ensures
        named(s.push(c), oid) == if c.0 == oid {
            named(s, oid).push(c)
        } else {
            named(s, oid)
        },
{
    reveal(Seq::filter);
    assert(s.push(c).drop_last() =~= s);
}

proof fn lemma_named_none(s: Seq<CellView>, oid: Seq<u32>)
    requires
        forall|k: int| 0 <= k < s.len() ==> (#[trigger] s[k]).0 != oid,
    ensures
        named(s, oid) == Seq::<CellView>::empty(),
    decreases s.len(),
{
    reveal(Seq::filter);
    if s.len() > 0 {
        let t = s.drop_last();
        assert forall|k: int| 0 <= k < t.len() implies (#[trigger] t[k]).0 != oid by {
            assert(t[k] == s[k]);
        }
        lemma_named_none(t, oid);
        assert(s[s.len() - 1].0 != oid);
    }
}

/// Inserting a cell behind every cell that is not greater keeps the order and the
/// cells of each name.
proof fn lemma_sorted_insert(s: Seq<CellView>, p: int, c: CellView)
    requires
        is_sorted(s),
        0 <= p <= s.len(),
        forall|k: int| 0 <= k < p ==> !lex_lt(c.0, #[trigger] s[k].0),
        forall|k: int| p <= k < s.len() ==> lex_lt(c.0, #[trigger] s[k].0),
    ensures
        is_sorted(s.insert(p, c)),
        forall|oid: Seq<u32>| #[trigger]
            named(s.insert(p, c), oid) == named(s.push(c), oid),
{
    let n = s.insert(p, c);
    assert forall|i: int, j: int| #![trigger n[i], n[j]] 0 <= i < j < n.len() implies !lex_lt(
        n[j].0,
        n[i].0,
    ) by {
        let a = if i < p {
            s[i]
        } else if i == p {
            c
        } else {
            s[i - 1]
        };
        let b = if j < p {
            s[j]
        } else if j == p {
            c
        } else {
            s[j - 1]
        };
        assert(n[i] == a && n[j] == b);
        if i == p {
            lex_lt_asymmetric(c.0, s[j - 1].0);
        }
    }
    let front = s.take(p);
    let back = s.skip(p);
    assert forall|oid: Seq<u32>| #[trigger] named(n, oid) == named(s.push(c), oid) by {
        let pred = |x: CellView| x.0 == oid;
        assert(n =~= front.push(c) + back);
        assert(s =~= front + back);
        Seq::filter_distributes_over_add(front.push(c), back, pred);
        Seq::filter_distributes_over_add(front, back, pred);
        lemma_named_push(front, c, oid);
        lemma_named_push(s, c, oid);
        if c.0 == oid {
            assert forall|k: int| 0 <= k < back.len() implies (#[trigger] back[k]).0 != oid by {
                assert(back[k] == s[k + p]);
                lex_lt_irreflexive(oid);
            }
            lemma_named_none(back, oid);
            assert(named(n, oid) =~= named(front, oid).push(c));
            assert(named(s.push(c), oid) =~= named(front, oid).push(c));
        }
    }
}

/// The cells sorted by OID, cells of one OID keeping their order.
pub fn sort_cells(v: Vec<(Oid, Value)>) -> (r: Vec<(Oid, Value)>)
    ensures
        is_sort_of(cells(r@), cells(v@)),
{
    let mut out: Vec<(Oid, Value)> = Vec::new();
    let mut i: usize = 0;
    assert(cells(out@) =~= cells(v@.take(0)));
    while i < v.len()
        invariant
            i <= v@.len(),
            is_sort_of(cells(out@), cells(v@.take(i as int))),
        decreases v@.len() - i,
    {
        let oid = v[i].0.clone();
        let value = v[i].1.clone();
        let p: usize = upper_bound(out.as_slice(), &oid);
        let ghost before = cells(out@);
        let ghost c = (oid@, value@);
        out.insert(p, (oid, value));
        proof {
            assert(cells(out@) =~= before.insert(p as int, c));
            lemma_sorted_insert(before, p as int, c);
            let done = cells(v@.take(i as int));
            assert(cells(v@.take(i + 1)) =~= done.push(c));
            assert forall|oid: Seq<u32>| #[trigger] named(cells(out@), oid) == named(
                done.push(c),
                oid,
            ) by {
                lemma_named_push(done, c, oid);
                lemma_named_push(before, c, oid);
                assert(named(before, oid) == named(done, oid));
            }
        }
        i += 1;
    }
    assert(v@.take(i as int) =~= v@);
    out
}

/// Replacing or inserting a cell in an increasing list is inserting it into the map.
proof fn lemma_increasing_put(s: Seq<CellView>, p: int, c: CellView)
    requires
        is_increasing(s),
        0 <= p <= s.len(),
        forall|k: int| 0 <= k < p ==> lex_lt(#[trigger] s[k].0, c.0),
        forall|k: int| p <= k < s.len() ==> !lex_lt(#[trigger] s[k].0, c.0),
    ensures
        p < s.len() && s[p].0 == c.0 ==> is_increasing(s.update(p, c)) && cell_map(s.update(p, c))
            == cell_map(s).insert(c.0, c.1),
        !(p < s.len() && s[p].0 == c.0) ==> is_increasing(s.insert(p, c)) && cell_map(
            s.insert(p, c),
        ) == cell_map(s).insert(c.0, c.1),
{
    let n = if p < s.len() && s[p].0 == c.0 {
        s.update(p, c)
    } else {
        s.insert(p, c)
    };
    let grown = n.len() > s.len();
    assert forall|i: int, j: int| #![trigger n[i], n[j]] 0 <= i < j < n.len() implies lex_lt(
        n[i].0,
        n[j].0,
    ) by {
        if grown {
            if i == p {
                let b = s[j - 1];
                assert(!lex_lt(s[p].0, c.0));
                lex_lt_total(s[p].0, c.0);
                if j - 1 > p {
                    assert(lex_lt(s[p].0, b.0));
                    lex_lt_transitive(c.0, s[p].0, b.0);
                }
            } else if j == p {
                assert(lex_lt(s[i].0, c.0));
            } else {
                let a = if i < p {
                    s[i]
                } else {
                    s[i - 1]
                };
                let b = if j < p {
                    s[j]
                } else {
                    s[j - 1]
                };
                assert(n[i] == a && n[j] == b);
            }
        } else {
            assert(n[i].0 == s[i].0);
            assert(n[j].0 == s[j].0);
            assert(lex_lt(s[i].0, s[j].0));
        }
    }
    lemma_map_entries(s);
    lemma_map_entries(n);
    let m = cell_map(s).insert(c.0, c.1);
    assert(cell_map(n) =~= m) by {
        assert forall|oid: Seq<u32>| #[trigger] cell_map(n).contains_key(oid) <==> m.contains_key(
            oid,
        ) by {
            if cell_map(n).contains_key(oid) {
                let i = choose|i: int| 0 <= i < n.len() && n[i].0 == oid;
                if n[i] != c {
                    let k = if grown && i > p {
                        i - 1
                    } else {
                        i
                    };
                    assert(s[k] == n[i]);
                }
            }
            if m.contains_key(oid) {
                if oid == c.0 {
                    assert(n[p] == c);
                } else {
                    let i = choose|i: int| 0 <= i < s.len() && s[i].0 == oid;
                    let k = if grown && i >= p {
                        i + 1
                    } else {
                        i
                    };
                    assert(n[k] == s[i]);
                }
            }
        }
        assert forall|oid: Seq<u32>| cell_map(n).contains_key(oid) implies #[trigger] cell_map(
            n,
        )[oid] == m[oid] by {
            if oid == c.0 {
                assert(n[p] == c);
            } else {
                let i = choose|i: int| 0 <= i < s.len() && s[i].0 == oid;
                assert(s[i].0 == oid);
                let k = if grown && i >= p {
                    i + 1
                } else {
                    i
                };
                assert(n[k] == s[i]);
            }
        }
    }
}

/// Set the value of `oid` in an increasing list.
pub fn put_cell(v: &mut Vec<(Oid, Value)>, oid: Oid, value: Value)
    requires
        is_increasing(cells(old(v)@)),
    ensures
        is_increasing(cells(final(v)@)),
        cell_map(cells(final(v)@)) == cell_map(cells(old(v)@)).insert(oid@, value@),
{
    proof {
        lemma_increasing_sorted(cells(v@));
    }
    let p: usize = lower_bound(v.as_slice(), &oid);
    let ghost before = cells(v@);
    let ghost c = (oid@, value@);
    proof {
        lemma_increasing_put(before, p as int, c);
    }
    if p < v.len() && v[p].0.same(&oid) {
        v.set(p, (oid, value));
        assert(cells(v@) =~= before.update(p as int, c));
    } else {
        v.insert(p, (oid, value));
        assert(cells(v@) =~= before.insert(p as int, c));
    }
}

/// The table that a list of cells makes: in increasing order, later cells replacing earlier
/// ones of the same OID.
pub fn collect_cells(v: Vec<(Oid, Value)>) -> (r: Vec<(Oid, Value)>)
    ensures
        is_table_of(cells(r@), cells(v@)),
{
    let mut out: Vec<(Oid, Value)> = Vec::new();
    let mut i: usize = 0;
    assert(cells(out@) =~= cells(v@.take(0)));
    while i < v.len()
        invariant
            i <= v@.len(),
            is_table_of(cells(out@), cells(v@.take(i as int))),
        decreases v@.len() - i,
    {
        let oid = v[i].0.clone();
        let value = v[i].1.clone();
        proof {
            let done = cells(v@.take(i as int));
            assert(cells(v@.take(i + 1)) =~= done.push((oid@, value@)));
            assert(done.push((oid@, value@)).drop_last() =~= done);
        }
        put_cell(&mut out, oid, value);
        i += 1;
    }
    assert(v@.take(i as int) =~= v@);
    out
}

/// Append the cell `entry.col.index` to `out`.
pub fn push_cell(out: &mut Vec<(Oid, Value)>, entry: &[u32], col: u32, index: &[u32], value: Value)
    ensures
        cells(final(out)@) == cells(old(out)@).push((entry@.push(col) + index@, value@)),
{
    let ghost before = out@;
    let oid = Oid::of(entry).child(col).extended(index);
    out.push((oid, value));
    assert(cells(out@) =~= cells(before).push((entry@.push(col) + index@, value@)));
}

/// Append the cell `entry.col.index` to `out`.
pub fn push_row_cell(out: &mut Vec<(Oid, Value)>, entry: &[u32], col: u32, index: u32, value: Value)
    ensures
        cells(final(out)@) == cells(old(out)@).push((entry@.push(col).push(index), value@)),
{
    let ghost before = out@;
    let oid = Oid::of(entry).child(col).child(index);
    out.push((oid, value));
    assert(cells(out@) =~= cells(before).push((entry@.push(col).push(index), value@)));
}

/// Append all cells of `more` to `out`.
pub fn append_cells(out: &mut Vec<(Oid, Value)>, more: Vec<(Oid, Value)>)
    ensures
        cells(final(out)@) == cells(old(out)@) + cells(more@),
{
    let ghost before = out@;
    let ghost tail = more@;
    let mut more = more;
    out.append(&mut more);
    assert(cells(out@) =~= cells(before) + cells(tail));
}

/// A string index: the length, followed by one arc per byte.
pub open spec fn length_prefixed(bytes: Seq<u8>) -> Seq<u32> {
    seq![bytes.len() as u32] + byte_arcs(bytes)
}

/// One arc per byte.
pub open spec fn byte_arcs(bytes: Seq<u8>) -> Seq<u32> {
    bytes.map_values(|b: u8| b as u32)
}

/// One arc per byte.
pub fn arcs_of_bytes(bytes: &[u8]) -> (r: Vec<u32>)
    ensures
        r@ == byte_arcs(bytes@),
{
    let mut out: Vec<u32> = Vec::new();
    let mut i: usize = 0;
    while i < bytes.len()
        invariant
            i <= bytes@.len(),
            out@ =~= byte_arcs(bytes@.take(i as int)),
        decreases bytes@.len() - i,
    {
        out.push(bytes[i] as u32);
        i += 1;
    }
    assert(bytes@.take(i as int) =~= bytes@);
    out
}

/// The index encoding of a variable-length OCTET STRING: its length, then one arc per byte.
pub fn string_index(bytes: &[u8]) -> (r: Vec<u32>)
    ensures
        r@ == length_prefixed(bytes@),
{
    let mut out: Vec<u32> = Vec::new();
    out.push(bytes.len() as u32);
    let mut tail = arcs_of_bytes(bytes);
    out.append(&mut tail);
    assert(out@ =~= length_prefixed(bytes@));
    out
}

/// The cell of a table: row prefix, column and index.
pub open spec fn cell(entry: Seq<u32>, col: u32, index: u32, value: ValueView) -> CellView {
    (entry.push(col).push(index), value)
}

/// A record that makes one or more rows of cells.
pub trait Row {
    /// The cells.
    spec fn row(&self) -> Seq<CellView>;

    /// Append the cells.
    fn push_row(&self, out: &mut Vec<(Oid, Value)>)
        ensures
            cells(final(out)@) == cells(old(out)@) + self.row(),
    ;
}

/// The cells of a list of records, one after the other.
pub open spec fn all_rows<R: Row>(rows: Seq<R>) -> Seq<CellView>
    decreases rows.len(),
{
    if rows.len() == 0 {
        seq![]
    } else {
        all_rows(rows.drop_last()) + rows.last().row()
    }
}

/// The cells of a list of records, one after the other.
pub fn row_cells<R: Row>(rows: &[R]) -> (r: Vec<(Oid, Value)>)
    ensures
        cells(r@) == all_rows(rows@),
{
    let mut out: Vec<(Oid, Value)> = Vec::new();
    let mut i: usize = 0;
    proof {
        assert(rows@.take(0) =~= Seq::<R>::empty());
        assert(cells(out@) =~= Seq::<CellView>::empty());
    }
    while i < rows.len()
        invariant
            i <= rows@.len(),
            cells(out@) == all_rows(rows@.take(i as int)),
        decreases rows@.len() - i,
    {
        assert(rows@.take(i + 1).drop_last() =~= rows@.take(i as int));
        rows[i].push_row(&mut out);
        i += 1;
    }
    assert(rows@.take(i as int) =~= rows@);
    out
}

/// The number of the row at position `i`: rows are numbered from one.
pub fn row_number(i: usize) -> (r: u32)
    requires
        i < usize::MAX,
    ensures
        r == (i + 1) as u32,
{
    #[verifier::truncate]
    ((i as u64 + 1) as u32)
}

/// The table that a list of cells makes.
pub open spec fn table_of(s: Seq<CellView>) -> Seq<CellView> {
    choose|r: Seq<CellView>| is_table_of(r, s)
}

/// Every list of cells makes a table.
pub proof fn every_list_makes_a_table(s: Seq<CellView>)
    ensures
        is_table_of(table_of(s), s),
    decreases s.len(),
{
    if s.len() == 0 {
        let r = Seq::<CellView>::empty();
        assert(is_table_of(r, s));
    } else {
        every_list_makes_a_table(s.drop_last());
        let t = table_of(s.drop_last());
        let c = s.last();
        let p = lemma_place(t, c.0);
        lemma_increasing_put(t, p, c);
        let r = if p < t.len() && t[p].0 == c.0 {
            t.update(p, c)
        } else {
            t.insert(p, c)
        };
        assert(is_table_of(r, s));
    }
}

/// Where an OID belongs in an increasing list.
proof fn lemma_place(s: Seq<CellView>, oid: Seq<u32>) -> (p: int)
    requires
        is_increasing(s),
    ensures
        0 <= p <= s.len(),
        forall|k: int| 0 <= k < p ==> lex_lt(#[trigger] s[k].0, oid),
        forall|k: int| p <= k < s.len() ==> !lex_lt(#[trigger] s[k].0, oid),
    decreases s.len(),
{
    if s.len() == 0 {
        0
    } else if lex_lt(s.last().0, oid) {
        assert forall|k: int| 0 <= k < s.len() implies lex_lt(#[trigger] s[k].0, oid) by {
            if k < s.len() - 1 {
                lex_lt_transitive(s[k].0, s[s.len() - 1].0, oid);
            }
        }
        s.len() as int
    } else {
        let t = s.drop_last();
        assert forall|i: int, j: int| #![trigger t[i], t[j]] 0 <= i < j < t.len() implies lex_lt(
            t[i].0,
            t[j].0,
        ) by {
            assert(t[i] == s[i] && t[j] == s[j]);
        }
        let p = lemma_place(t, oid);
        assert forall|k: int| 0 <= k < p implies lex_lt(#[trigger] s[k].0, oid) by {
            assert(t[k] == s[k]);
        }
        assert forall|k: int| p <= k < s.len() implies !lex_lt(#[trigger] s[k].0, oid) by {
            if k < t.len() {
                assert(t[k] == s[k]);
            }
        }
        p
    }
}

/// A list of cells makes one table only.
pub proof fn table_is_unique(r: Seq<CellView>, s: Seq<CellView>)
    requires
        is_table_of(r, s),
    ensures
        r == table_of(s),
{
    lemma_same_map(r, table_of(s));
}

/// Two lists in increasing order that make one map are the same.
proof fn lemma_same_map(a: Seq<CellView>, b: Seq<CellView>)
    requires
        is_increasing(a),
        is_increasing(b),
        cell_map(a) == cell_map(b),
    ensures
        a == b,
    decreases a.len(),
{
    lemma_map_entries(a);
    lemma_map_entries(b);
    if a.len() == 0 {
        if b.len() > 0 {
            assert(cell_map(b).contains_key(b[0].0));
        }
        assert(a =~= b);
    } else if b.len() == 0 {
        assert(cell_map(a).contains_key(a[0].0));
    } else {
        let x = a.last();
        let y = b.last();
        assert(a[a.len() - 1] == x && b[b.len() - 1] == y);
        assert(cell_map(a).contains_key(x.0));
        assert(cell_map(b).contains_key(y.0));
        if x.0 != y.0 {
            let i = choose|i: int| 0 <= i < b.len() && b[i].0 == x.0;
            assert(b[i].0 == x.0);
            assert(lex_lt(b[i].0, b[b.len() - 1].0));
            let j = choose|j: int| 0 <= j < a.len() && a[j].0 == y.0;
            assert(a[j].0 == y.0);
            assert(lex_lt(a[j].0, a[a.len() - 1].0));
            lex_lt_asymmetric(x.0, y.0);
        }
        assert(x == y);
        let c = a.drop_last();
        let d = b.drop_last();
        assert(is_increasing(c)) by {
            assert forall|i: int, j: int| #![trigger c[i], c[j]]
                0 <= i < j < c.len() implies lex_lt(c[i].0, c[j].0) by {
                assert(c[i] == a[i] && c[j] == a[j]);
            }
        }
        assert(is_increasing(d)) by {
            assert forall|i: int, j: int| #![trigger d[i], d[j]]
                0 <= i < j < d.len() implies lex_lt(d[i].0, d[j].0) by {
                assert(d[i] == b[i] && d[j] == b[j]);
            }
        }
        lemma_map_entries(c);
        lemma_map_entries(d);
        assert(!cell_map(c).contains_key(x.0)) by {
            if cell_map(c).contains_key(x.0) {
                let i = choose|i: int| 0 <= i < c.len() && c[i].0 == x.0;
                assert(a[i].0 == x.0);
                assert(lex_lt(a[i].0, a[a.len() - 1].0));
                lex_lt_irreflexive(x.0);
            }
        }
        assert(!cell_map(d).contains_key(x.0)) by {
            if cell_map(d).contains_key(x.0) {
                let i = choose|i: int| 0 <= i < d.len() && d[i].0 == x.0;
                assert(b[i].0 == x.0);
                assert(lex_lt(b[i].0, b[b.len() - 1].0));
                lex_lt_irreflexive(x.0);
            }
        }
        assert(cell_map(c) =~= cell_map(a).remove(x.0));
        assert(cell_map(d) =~= cell_map(b).remove(x.0));
        lemma_same_map(c, d);
        assert(a =~= c.push(x));
        assert(b =~= d.push(x));
    }
}

/// The cells of a list sorted by OID, cells of one OID in their given order.
pub open spec fn sort_of(s: Seq<CellView>) -> Seq<CellView> {
    choose|r: Seq<CellView>| is_sort_of(r, s)
}

/// A list has one sorted form only.
pub proof fn sort_is_unique(r: Seq<CellView>, s: Seq<CellView>)
    requires
        is_sort_of(r, s),
    ensures
        r == sort_of(s),
{
    let t = sort_of(s);
    assert forall|oid: Seq<u32>| #[trigger] named(r, oid) == named(t, oid) by {
        assert(named(r, oid) == named(s, oid));
        assert(named(t, oid) == named(s, oid));
    }
    lemma_same_sort(r, t);
}

/// Every list has a sorted form.
pub proof fn every_list_has_a_sort(s: Seq<CellView>)
    ensures
        is_sort_of(sort_of(s), s),
    decreases s.len(),
{
    if s.len() == 0 {
        assert(is_sort_of(s, s));
    } else {
        every_list_has_a_sort(s.drop_last());
        let t = sort_of(s.drop_last());
        let c = s.last();
        let p = lemma_upper_place(t, c.0);
        lemma_sorted_insert(t, p, c);
        let r = t.insert(p, c);
        assert(s =~= s.drop_last().push(c));
        assert forall|oid: Seq<u32>| #[trigger] named(r, oid) == named(s, oid) by {
            lemma_named_push(t, c, oid);
            lemma_named_push(s.drop_last(), c, oid);
            assert(named(t, oid) == named(s.drop_last(), oid));
        }
        assert(is_sort_of(r, s));
    }
}

/// Where an OID belongs behind those of a sorted list that are not greater.
proof fn lemma_upper_place(s: Seq<CellView>, oid: Seq<u32>) -> (p: int)
    requires
        is_sorted(s),
    ensures
        0 <= p <= s.len(),
        forall|k: int| 0 <= k < p ==> !lex_lt(oid, #[trigger] s[k].0),
        forall|k: int| p <= k < s.len() ==> lex_lt(oid, #[trigger] s[k].0),
    decreases s.len(),
{
    if s.len() == 0 {
        0
    } else if !lex_lt(oid, s.last().0) {
        assert forall|k: int| 0 <= k < s.len() implies !lex_lt(oid, #[trigger] s[k].0) by {
            if k < s.len() - 1 && lex_lt(oid, s[k].0) {
                let last = s[s.len() - 1].0;
                assert(!lex_lt(last, s[k].0));
                lex_lt_total(last, s[k].0);
                if lex_lt(s[k].0, last) {
                    lex_lt_transitive(oid, s[k].0, last);
                }
            }
        }
        s.len() as int
    } else {
        let t = s.drop_last();
        assert forall|i: int, j: int| #![trigger t[i], t[j]] 0 <= i < j < t.len() implies !lex_lt(
            t[j].0,
            t[i].0,
        ) by {
            assert(t[i] == s[i] && t[j] == s[j]);
        }
        let p = lemma_upper_place(t, oid);
        assert forall|k: int| 0 <= k < p implies !lex_lt(oid, #[trigger] s[k].0) by {
            assert(t[k] == s[k]);
        }
        assert forall|k: int| p <= k < s.len() implies lex_lt(oid, #[trigger] s[k].0) by {
            if k < t.len() {
                assert(t[k] == s[k]);
            }
        }
        p
    }
}

/// A name that has cells is the name of one of them.
proof fn lemma_named_some(s: Seq<CellView>, oid: Seq<u32>) -> (k: int)
    requires
        named(s, oid).len() > 0,
    ensures
        0 <= k < s.len(),
        s[k].0 == oid,
    decreases s.len(),
{
    reveal(Seq::filter);
    if s.last().0 == oid {
        s.len() - 1
    } else {
        let k = lemma_named_some(s.drop_last(), oid);
        assert(s.drop_last()[k] == s[k]);
        k
    }
}

/// Two sorted lists with the same cells for each name are the same.
proof fn lemma_same_sort(a: Seq<CellView>, b: Seq<CellView>)
    requires
        is_sorted(a),
        is_sorted(b),
        forall|oid: Seq<u32>| #[trigger] named(a, oid) == named(b, oid),
    ensures
        a == b,
    decreases a.len(),
{
    if a.len() == 0 {
        if b.len() > 0 {
            let y = b.last();
            assert(b =~= b.drop_last().push(y));
            lemma_named_push(b.drop_last(), y, y.0);
            assert(named(a, y.0) == named(b, y.0));
            let k = lemma_named_some(a, y.0);
        }
        assert(a =~= b);
    } else {
        let x = a.last();
        let c = a.drop_last();
        assert(a =~= c.push(x));
        lemma_named_push(c, x, x.0);
        assert(named(a, x.0) == named(b, x.0));
        let i = lemma_named_some(b, x.0);
        let y = b.last();
        let d = b.drop_last();
        assert(b =~= d.push(y));
        lemma_named_push(d, y, y.0);
        assert(named(a, y.0) == named(b, y.0));
        let j = lemma_named_some(a, y.0);
        assert(b[b.len() - 1] == y && a[a.len() - 1] == x);
        if i < b.len() - 1 {
            assert(!lex_lt(b[b.len() - 1].0, b[i].0));
        } else {
            lex_lt_irreflexive(x.0);
        }
        if j < a.len() - 1 {
            assert(!lex_lt(a[a.len() - 1].0, a[j].0));
        } else {
            lex_lt_irreflexive(x.0);
        }
        lex_lt_total(x.0, y.0);
        assert(x.0 == y.0);
        assert(named(a, x.0).last() == x);
        assert(named(b, x.0).last() == y);
        assert forall|oid: Seq<u32>| #[trigger] named(c, oid) == named(d, oid) by {
            lemma_named_push(c, x, oid);
            lemma_named_push(d, y, oid);
            assert(named(a, oid) == named(b, oid));
            if oid == x.0 {
                assert(named(c, oid) =~= named(a, oid).drop_last());
                assert(named(d, oid) =~= named(b, oid).drop_last());
            }
        }
        assert(is_sorted(c)) by {
            assert forall|i: int, j: int| #![trigger c[i], c[j]]
                0 <= i < j < c.len() implies !lex_lt(c[j].0, c[i].0) by {
                assert(c[i] == a[i] && c[j] == a[j]);
            }
        }
        assert(is_sorted(d)) by {
            assert forall|i: int, j: int| #![trigger d[i], d[j]]
                0 <= i < j < d.len() implies !lex_lt(d[j].0, d[i].0) by {
                assert(d[i] == b[i] && d[j] == b[j]);
            }
        }
        lemma_same_sort(c, d);
    }
}

} // verus!
