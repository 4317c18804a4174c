//! What GETs of a table answer, in terms of the rows that it is made from.

use vstd::prelude::*;

use crate::cells::cell_map;
use crate::cells::every_list_has_a_sort;
use crate::cells::every_list_makes_a_table;
use crate::cells::find;
use crate::cells::find_is_map_lookup;
use crate::cells::lemma_find_at;
use crate::cells::lemma_find_none;
use crate::cells::named;
use crate::cells::sort_of;
use crate::cells::table_of;
use crate::cells::CellView;
use crate::value::ValueView;

verus! {

/// What a GET of an OID answers where the table of a list of cells is served.
pub open spec fn table_answer(provided: Seq<CellView>, oid: Seq<u32>) -> Option<ValueView> {
    find(table_of(provided), oid)
}

/// The cells of rows, one row after the other.
pub open spec fn flat(rows: Seq<Seq<CellView>>) -> Seq<CellView>
    decreases rows.len(),
{
    if rows.len() == 0 {
        seq![]
    } else {
        flat(rows.drop_last()) + rows.last()
    }
}

pub(crate) proof fn lemma_answer_is_map(s: Seq<CellView>, oid: Seq<u32>)
    ensures
        table_answer(s, oid) == (if cell_map(s).contains_key(oid) {
            Some(cell_map(s)[oid])
        } else {
            None
        }),
{
    every_list_makes_a_table(s);
    find_is_map_lookup(table_of(s), oid);
}

proof fn lemma_map_of_sum(a: Seq<CellView>, b: Seq<CellView>)
    ensures
        cell_map(a + b) == cell_map(a).union_prefer_right(cell_map(b)),
    decreases b.len(),
{
    if b.len() == 0 {
        assert(a + b =~= a);
        assert(cell_map(a).union_prefer_right(cell_map(b)) =~= cell_map(a));
    } else {
        assert((a + b).drop_last() =~= a + b.drop_last());
        lemma_map_of_sum(a, b.drop_last());
        assert(cell_map(a + b) =~= cell_map(a).union_prefer_right(cell_map(b)));
    }
}

/// Of two lists of cells that make one table the second answers first, and the first answers for
/// the rest.
pub proof fn later_cells_answer_first(a: Seq<CellView>, b: Seq<CellView>, oid: Seq<u32>)
    ensures
        table_answer(b, oid) is Some ==> table_answer(a + b, oid) == table_answer(b, oid),
        table_answer(b, oid) is None ==> table_answer(a + b, oid) == table_answer(a, oid),
{
    lemma_map_of_sum(a, b);
    lemma_answer_is_map(a, oid);
    lemma_answer_is_map(b, oid);
    lemma_answer_is_map(a + b, oid);
}

/// A table answers for no OID that none of its cells has.
pub proof fn tables_answer_for_their_cells(s: Seq<CellView>, oid: Seq<u32>)
    requires
        forall|k: int| 0 <= k < s.len() ==> (#[trigger] s[k]).0 != oid,
    ensures
        table_answer(s, oid) is None,
    decreases s.len(),
{
    lemma_answer_is_map(s, oid);
    if s.len() > 0 {
        let t = s.drop_last();
        assert forall|k: int| 0 <= k < t.len() implies (#[trigger] t[k]).0 != oid by {
            assert(t[k] == s[k]);
        }
        tables_answer_for_their_cells(t, oid);
        lemma_answer_is_map(t, oid);
        assert(s.last() == s[s.len() - 1]);
    }
}

/// A cell behind which no cell has its OID is what a GET answers.
pub proof fn last_cell_answers(s: Seq<CellView>, k: int)
    requires
        0 <= k < s.len(),
        forall|j: int| k < j < s.len() ==> (#[trigger] s[j]).0 != s[k].0,
    ensures
        table_answer(s, s[k].0) == Some(s[k].1),
    decreases s.len(),
{
    lemma_answer_is_map(s, s[k].0);
    if k < s.len() - 1 {
        let t = s.drop_last();
        assert(t[k] == s[k]);
        assert(s[s.len() - 1].0 != s[k].0);
        assert forall|j: int| k < j < t.len() implies (#[trigger] t[j]).0 != t[k].0 by {
            assert(t[j] == s[j]);
        }
        last_cell_answers(t, k);
        lemma_answer_is_map(t, s[k].0);
    }
}

/// The cell in column `c` of row `k` is what a GET answers, if no cell behind it has its OID.
pub(crate) proof fn lemma_cell_answers(rows: Seq<Seq<CellView>>, k: int, c: int)
    requires
        0 <= k < rows.len(),
        0 <= c < rows[k].len(),
        forall|r: int, j: int|
            #![trigger rows[r][j]]
            k < r < rows.len() && 0 <= j < rows[r].len() ==> rows[r][j].0 != rows[k][c].0,
        forall|j: int| c < j < rows[k].len() ==> (#[trigger] rows[k][j]).0 != rows[k][c].0,
    ensures
        table_answer(flat(rows), rows[k][c].0) == Some(rows[k][c].1),
    decreases rows.len(),
{
    let oid = rows[k][c].0;
    let t = rows.drop_last();
    let last = rows[rows.len() - 1];
    later_cells_answer_first(flat(t), last, oid);
    if k == rows.len() - 1 {
        last_cell_answers(last, c);
    } else {
        assert(t[k] == rows[k]);
        assert forall|r: int, j: int|
            #![trigger t[r][j]]
            k < r < t.len() && 0 <= j < t[r].len() implies t[r][j].0 != t[k][c].0 by {
            assert(t[r][j] == rows[r][j]);
        }
        lemma_cell_answers(t, k, c);
        let r = rows.len() - 1;
        assert forall|j: int| 0 <= j < last.len() implies (#[trigger] last[j]).0 != oid by {
            assert(rows[r][j].0 != rows[k][c].0);
        }
        tables_answer_for_their_cells(last, oid);
    }
}

/// Rows answer for no OID that none of their cells has.
pub(crate) proof fn lemma_rows_lack(rows: Seq<Seq<CellView>>, oid: Seq<u32>)
    requires
        forall|r: int, j: int|
            #![trigger rows[r][j]]
            0 <= r < rows.len() && 0 <= j < rows[r].len() ==> rows[r][j].0 != oid,
    ensures
        table_answer(flat(rows), oid) is None,
    decreases rows.len(),
{
    if rows.len() == 0 {
        tables_answer_for_their_cells(flat(rows), oid);
    } else {
        let t = rows.drop_last();
        let n = rows.len() - 1;
        assert forall|r: int, j: int|
            #![trigger t[r][j]]
            0 <= r < t.len() && 0 <= j < t[r].len() implies t[r][j].0 != oid by {
            assert(t[r][j] == rows[r][j]);
        }
        lemma_rows_lack(t, oid);
        let last = rows[n];
        assert forall|j: int| 0 <= j < last.len() implies (#[trigger] last[j]).0 != oid by {
            assert(rows[n][j].0 != oid);
        }
        tables_answer_for_their_cells(last, oid);
        later_cells_answer_first(flat(t), last, oid);
    }
}

/// The cell in column `c` of row `k` is what a GET answers, if behind it no cell of the row has its
/// column, and no later row has its index. The column stands before position `n` of an OID, the
/// index behind it.
pub(crate) proof fn lemma_row_cell(
    rows: Seq<Seq<CellView>>,
    n: int,
    ids: Seq<Seq<u32>>,
    k: int,
    c: int,
)
    requires
        n >= 1,
        rows.len() == ids.len(),
        0 <= k < rows.len(),
        0 <= c < rows[k].len(),
        rows[k][c].0.len() >= n,
        rows[k][c].0.skip(n) == ids[k],
        forall|r: int, j: int|
            #![trigger rows[r][j]]
            k < r < rows.len() && 0 <= j < rows[r].len() ==> rows[r][j].0.len() >= n
                && rows[r][j].0.skip(n) == ids[r],
        forall|r: int| k < r < rows.len() ==> #[trigger] ids[r] != ids[k],
        forall|j: int|
            c < j < rows[k].len() ==> (#[trigger] rows[k][j]).0.len() >= n && rows[k][j].0[n - 1]
                != rows[k][c].0[n - 1],
    ensures
        table_answer(flat(rows), rows[k][c].0) == Some(rows[k][c].1),
{
    let oid = rows[k][c].0;
    assert forall|r: int, j: int|
        #![trigger rows[r][j]]
        k < r < rows.len() && 0 <= j < rows[r].len() implies rows[r][j].0 != oid by {
        assert(rows[r][j].0.skip(n) == ids[r]);
        assert(ids[r] != ids[k]);
    }
    lemma_cell_answers(rows, k, c);
}

/// Whether every cell has an arc at a position of its OID.
pub open spec fn all_under(s: Seq<CellView>, p: int, arc: u32) -> bool {
    forall|k: int|
        0 <= k < s.len() ==> (#[trigger] s[k]).0.len() > p && s[k].0[p] == arc
}

/// Cells under one arc answer for no OID under another.
pub proof fn other_arcs_are_not_answered(s: Seq<CellView>, p: int, arc: u32, oid: Seq<u32>)
    requires
        all_under(s, p, arc),
        0 <= p < oid.len(),
        oid[p] != arc,
    ensures
        table_answer(s, oid) is None,
{
    assert forall|k: int| 0 <= k < s.len() implies (#[trigger] s[k]).0 != oid by {
        assert(s[k].0[p] == arc);
    }
    tables_answer_for_their_cells(s, oid);
}

/// What a GET of an OID answers where a list of cells is served in the order of their OIDs.
pub open spec fn listed_answer(provided: Seq<CellView>, oid: Seq<u32>) -> Option<ValueView> {
    find(sort_of(provided), oid)
}

proof fn lemma_find_from_behind(s: Seq<CellView>, oid: Seq<u32>)
    requires
        s.len() > 0,
    ensures
        find(s, oid) == (if find(s.drop_last(), oid) is Some {
            find(s.drop_last(), oid)
        } else if s.last().0 == oid {
            Some(s.last().1)
        } else {
            None
        }),
    decreases s.len(),
{
    reveal_with_fuel(find, 2);
    if s.len() > 1 {
        let t = s.drop_first();
        lemma_find_from_behind(t, oid);
        assert(t.drop_last() =~= s.drop_last().drop_first());
        assert(t.last() == s.last());
        assert(s.drop_last()[0] == s[0]);
    } else {
        assert(s.drop_first() =~= Seq::<CellView>::empty());
        assert(s.drop_last() =~= Seq::<CellView>::empty());
        assert(s.last() == s[0]);
    }
}

proof fn lemma_find_is_first_named(s: Seq<CellView>, oid: Seq<u32>)
    ensures
        find(s, oid) == (if named(s, oid).len() > 0 {
            Some(named(s, oid)[0].1)
        } else {
            None
        }),
    decreases s.len(),
{
    reveal(Seq::filter);
    if s.len() > 0 {
        lemma_find_from_behind(s, oid);
        lemma_find_is_first_named(s.drop_last(), oid);
    }
}

/// Of cells that are listed under one OID the first answers.
pub proof fn first_listed_cell_answers(s: Seq<CellView>, oid: Seq<u32>)
    ensures
        listed_answer(s, oid) == find(s, oid),
{
    every_list_has_a_sort(s);
    assert(named(sort_of(s), oid) == named(s, oid));
    lemma_find_is_first_named(s, oid);
    lemma_find_is_first_named(sort_of(s), oid);
}

proof fn lemma_find_in_sum(a: Seq<CellView>, b: Seq<CellView>, oid: Seq<u32>)
    ensures
        find(a + b, oid) == (if find(a, oid) is Some {
            find(a, oid)
        } else {
            find(b, oid)
        }),
    decreases b.len(),
{
    if b.len() == 0 {
        assert(a + b =~= a);
    } else {
        assert((a + b).drop_last() =~= a + b.drop_last());
        assert((a + b).last() == b.last());
        lemma_find_in_sum(a, b.drop_last(), oid);
        lemma_find_from_behind(a + b, oid);
        lemma_find_from_behind(b, oid);
    }
}

/// The cell in column `c` of row `k` is what a GET answers, if no cell before it has its OID. The
/// column stands before position `n` of an OID, the index behind it.
pub(crate) proof fn lemma_listed_cell(
    rows: Seq<Seq<CellView>>,
    n: int,
    ids: Seq<Seq<u32>>,
    k: int,
    c: int,
)
    requires
        n >= 1,
        rows.len() == ids.len(),
        0 <= k < rows.len(),
        0 <= c < rows[k].len(),
        rows[k][c].0.len() >= n,
        rows[k][c].0.skip(n) == ids[k],
        forall|r: int, j: int|
            #![trigger rows[r][j]]
            0 <= r < k && 0 <= j < rows[r].len() ==> rows[r][j].0.len() >= n
                && rows[r][j].0.skip(n) == ids[r],
        forall|r: int| 0 <= r < k ==> #[trigger] ids[r] != ids[k],
        forall|j: int|
            0 <= j < c ==> (#[trigger] rows[k][j]).0.len() >= n && rows[k][j].0[n - 1]
                != rows[k][c].0[n - 1],
    ensures
        listed_answer(flat(rows), rows[k][c].0) == Some(rows[k][c].1),
{
    lemma_first_in_rows(rows, n, ids, k, c, rows.len() as int);
    assert(rows.take(rows.len() as int) =~= rows);
    first_listed_cell_answers(flat(rows), rows[k][c].0);
}

proof fn lemma_first_in_rows(
    rows: Seq<Seq<CellView>>,
    n: int,
    ids: Seq<Seq<u32>>,
    k: int,
    c: int,
    m: int,
)
    requires
        n >= 1,
        rows.len() == ids.len(),
        0 <= k < rows.len(),
        0 <= c < rows[k].len(),
        rows[k][c].0.len() >= n,
        rows[k][c].0.skip(n) == ids[k],
        forall|r: int, j: int|
            #![trigger rows[r][j]]
            0 <= r < k && 0 <= j < rows[r].len() ==> rows[r][j].0.len() >= n
                && rows[r][j].0.skip(n) == ids[r],
        forall|r: int| 0 <= r < k ==> #[trigger] ids[r] != ids[k],
        forall|j: int|
            0 <= j < c ==> (#[trigger] rows[k][j]).0.len() >= n && rows[k][j].0[n - 1]
                != rows[k][c].0[n - 1],
        0 <= m <= rows.len(),
    ensures
        m <= k ==> find(flat(rows.take(m)), rows[k][c].0) is None,
        m > k ==> find(flat(rows.take(m)), rows[k][c].0) == Some(rows[k][c].1),
    decreases m,
{
    let oid = rows[k][c].0;
    if m > 0 {
        lemma_first_in_rows(rows, n, ids, k, c, m - 1);
        let row = rows[m - 1];
        assert(rows.take(m).drop_last() =~= rows.take(m - 1));
        assert(rows.take(m).last() == row);
        lemma_find_in_sum(flat(rows.take(m - 1)), row, oid);
        if m - 1 < k {
            assert(ids[m - 1] != ids[k]);
            assert forall|j: int| 0 <= j < row.len() implies row[j].0 != oid by {
                assert(rows[m - 1][j].0.skip(n) == ids[m - 1]);
            }
            lemma_find_none(row, oid);
        } else if m - 1 == k {
            assert forall|j: int| 0 <= j < c implies row[j].0 != oid by {
                assert(rows[k][j].0[n - 1] != oid[n - 1]);
            }
            lemma_find_at(row, oid, c);
        }
    }
}

} // verus!
