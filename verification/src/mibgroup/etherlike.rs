//! The table of Ethernet statistics.

use vstd::prelude::*;

use crate::cells::all_rows;
use crate::cells::cell;
use crate::cells::cells;
use crate::cells::push_row_cell;
use crate::cells::row_cells;
use crate::cells::CellView;
use crate::cells::Row;
use crate::oid::Oid;
use crate::registry::handler_states;
use crate::scalar::sorted_state;
use crate::scalar::FnHandler;
use crate::text::begins_with;
use crate::text::chars_of;
use crate::text::find_char;
use crate::text::lines;
use crate::text::position;
use crate::text::slice_of;
use crate::text::split_lines;
use crate::text::starts_with;
use crate::text::texts;
use crate::text::trim;
use crate::text::trimmed;
use crate::value::Value;
use crate::value::ValueView;

verus! {

/// The statistics of one interface, of which nothing is counted.
#[derive(Clone, Copy, Debug, Default, PartialEq, Eq, Structural)]
pub struct Dot3StatsRow {
    /// The number of the interface.
    pub if_index: u32,
}

/// The root of the table.
pub open spec fn dot3_root() -> Seq<u32> {
    seq![1u32, 3, 6, 1, 2, 1, 10, 7, 2]
}

/// The row prefix of the table.
pub open spec fn dot3_entry() -> Seq<u32> {
    seq![1u32, 3, 6, 1, 2, 1, 10, 7, 2, 1, 1]
}

impl Row for Dot3StatsRow {
    open spec fn row(&self) -> Seq<CellView> {
        let e = dot3_entry();
        let i = self.if_index;
        seq![
            cell(e, 1, i, ValueView::Integer(i as i64)),
            cell(e, 3, i, ValueView::Counter32(0)),
            cell(e, 7, i, ValueView::Counter32(0)),
            cell(e, 10, i, ValueView::Counter32(0)),
            cell(e, 11, i, ValueView::Counter32(0)),
            cell(e, 13, i, ValueView::Counter32(0)),
            cell(e, 16, i, ValueView::Counter32(0)),
            cell(e, 17, i, ValueView::Oid(seq![0u32, 0])),
        ]
    }

    fn push_row(&self, out: &mut Vec<(Oid, Value)>) {
        let e: [u32; 11] = [1, 3, 6, 1, 2, 1, 10, 7, 2, 1, 1];
        assert(e@ =~= dot3_entry());
        let ghost before = cells(out@);
        let i: u32 = self.if_index;
        let chip_set = Oid::null();
        assert(chip_set@ =~= seq![0u32, 0]);
        push_row_cell(out, &e, 1, i, Value::Integer(i as i64));
        push_row_cell(out, &e, 3, i, Value::Counter32(0));
        push_row_cell(out, &e, 7, i, Value::Counter32(0));
        push_row_cell(out, &e, 10, i, Value::Counter32(0));
        push_row_cell(out, &e, 11, i, Value::Counter32(0));
        push_row_cell(out, &e, 13, i, Value::Counter32(0));
        push_row_cell(out, &e, 16, i, Value::Counter32(0));
        push_row_cell(out, &e, 17, i, Value::Oid(chip_set));
        assert(cells(out@) =~= before + self.row());
    }
}

/// The cells of the table, row by row.
pub fn dot3_stats_cells(rows: &[Dot3StatsRow]) -> (r: Vec<(Oid, Value)>)
    ensures
        cells(r@) == all_rows(rows@),
{
    row_cells(rows)
}

/// The name of the interface of a line: what is before the colon.
pub open spec fn interface_name(line: Seq<char>) -> Seq<char> {
    trim(line.take(find_char(line, ':') as int))
}

/// Whether an interface is one of Ethernet, by its name.
pub open spec fn is_ethernet(name: Seq<char>) -> bool {
    starts_with(name, "eth"@) || starts_with(name, "enp"@) || starts_with(name, "enx"@)
        || starts_with(name, "ens"@)
}

/// The Ethernet interfaces among those of lines, which are numbered from one.
pub open spec fn ethernet_rows(ls: Seq<Seq<char>>) -> Seq<Dot3StatsRow>
    decreases ls.len(),
{
    if ls.len() == 0 {
        seq![]
    } else if is_ethernet(interface_name(ls.last())) {
        ethernet_rows(ls.drop_last()).push(Dot3StatsRow { if_index: ls.len() as u32 })
    } else {
        ethernet_rows(ls.drop_last())
    }
}

/// The lines of a text below two lines of heading.
pub open spec fn below_two(text: Seq<char>) -> Seq<Seq<char>> {
    let ls = lines(text);
    if ls.len() > 2 {
        ls.skip(2)
    } else {
        seq![]
    }
}

fn names_ethernet(line: &[char]) -> (r: bool)
    ensures
        r == is_ethernet(interface_name(line@)),
{
    assert(line@.skip(0) =~= line@);
    let n: usize = position(line, 0, ':');
    let front = slice_of(line, 0, n);
    assert(front@ =~= line@.take(n as int));
    let name = trimmed(front.as_slice());
    let v = name.as_slice();
    begins_with(v, "eth") || begins_with(v, "enp") || begins_with(v, "enx") || begins_with(v, "ens")
}

/// The Ethernet interfaces that the text of the kernel lists.
pub fn interface_rows(content: &str) -> (r: Vec<Dot3StatsRow>)
    requires
        lines(content@).len() <= u32::MAX,
    ensures
        r@ == ethernet_rows(below_two(content@)),
{
    let v = chars_of(content);
    let ls = split_lines(v.as_slice());
    let ghost all = texts(ls@);
    let ghost below = below_two(content@);
    let mut rows: Vec<Dot3StatsRow> = Vec::new();
    assert(below.take(0) =~= Seq::<Seq<char>>::empty());
    if ls.len() <= 2 {
        return rows;
    }
    let mut i: usize = 2;
    while i < ls.len()
        invariant
            2 <= i <= ls@.len(),
            ls@.len() <= u32::MAX,
            all == texts(ls@),
            below == all.skip(2),
            rows@ == ethernet_rows(below.take(i - 2)),
        decreases ls@.len() - i,
    {
        proof {
            assert(below.take(i - 1).drop_last() =~= below.take(i - 2));
            assert(below.take(i - 1).last() == ls@[i as int]@);
        }
        if names_ethernet(ls[i].as_slice()) {
            rows.push(Dot3StatsRow { if_index: (i - 1) as u32 });
        }
        i += 1;
    }
    assert(below.take(i - 2) =~= below);
    rows
}

/// The handlers of the table, for the text of the kernel that lists the interfaces.
pub fn etherlike_handlers(content: &str) -> (r: Vec<FnHandler>)
    requires
        lines(content@).len() <= u32::MAX,
    ensures
        handler_states(r@) == seq![
            sorted_state(dot3_root(), all_rows(ethernet_rows(below_two(content@)))),
        ],
{
    let root = Oid::new(vec![1, 3, 6, 1, 2, 1, 10, 7, 2]);
    assert(root@ =~= dot3_root());
    let rows = interface_rows(content);
    let r = vec![FnHandler::new(root, dot3_stats_cells(rows.as_slice()))];
    assert(handler_states(r@) =~= seq![
        sorted_state(dot3_root(), all_rows(ethernet_rows(below_two(content@)))),
    ]);
    r
}

} // verus!
