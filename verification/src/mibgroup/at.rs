//! The address translation table in its older form.

use vstd::prelude::*;

use crate::cells::cells;
use crate::cells::collect_cells;
use crate::cells::is_table_of;
use crate::cells::push_cell;
use crate::cells::CellView;
use crate::handler::MibHandler;
use crate::mibgroup::ip::arp_entries_of;
use crate::mibgroup::ip::arp_index;
use crate::mibgroup::ip::arp_index_of;
use crate::mibgroup::ip::arp_views;
use crate::mibgroup::ip::parse_arp_entries;
use crate::mibgroup::ip::ArpEntry;
use crate::mibgroup::ip::ArpView;
use crate::oid::Oid;
use crate::scalar::table_state;
use crate::scalar::FnHandler;
use crate::value::copy_bytes;
use crate::value::Value;
use crate::value::ValueView;

verus! {

/// The root of the table.
pub open spec fn at_table_root() -> Seq<u32> {
    seq![1u32, 3, 6, 1, 2, 1, 3, 1]
}

/// The row prefix of the table.
pub open spec fn at_entry() -> Seq<u32> {
    seq![1u32, 3, 6, 1, 2, 1, 3, 1, 1, 1]
}

/// The cells of one row.
pub open spec fn at_row(x: ArpView) -> Seq<CellView> {
    let e = at_entry();
    let i = arp_index(x);
    seq![
        (e.push(1) + i, ValueView::Integer(x.if_index as i64)),
        (e.push(2) + i, ValueView::OctetString(x.phys_address)),
        (e.push(3) + i, ValueView::IpAddress(x.net_address)),
    ]
}

/// The cells of rows, one after the other.
pub open spec fn at_rows(es: Seq<ArpView>) -> Seq<CellView>
    decreases es.len(),
{
    if es.len() == 0 {
        seq![]
    } else {
        at_rows(es.drop_last()) + at_row(es.last())
    }
}

fn raw_at_cells(entries: &[ArpEntry]) -> (r: Vec<(Oid, Value)>)
    ensures
        cells(r@) == at_rows(arp_views(entries@)),
{
    let e: [u32; 10] = [1, 3, 6, 1, 2, 1, 3, 1, 1, 1];
    assert(e@ =~= at_entry());
    let ghost all = arp_views(entries@);
    let mut out: Vec<(Oid, Value)> = Vec::new();
    let mut i: usize = 0;
    proof {
        assert(all.take(0) =~= Seq::<ArpView>::empty());
        assert(cells(out@) =~= Seq::<CellView>::empty());
    }
    while i < entries.len()
        invariant
            i <= entries@.len(),
            e@ == at_entry(),
            all == arp_views(entries@),
            cells(out@) == at_rows(all.take(i as int)),
        decreases entries@.len() - i,
    {
        let ghost before = cells(out@);
        let x = &entries[i];
        proof {
            assert(all.take(i + 1).drop_last() =~= all.take(i as int));
            assert(all.take(i + 1).last() == x@);
        }
        let index = arp_index_of(x);
        let k = index.as_slice();
        let mac = copy_bytes(x.phys_address.as_slice());
        push_cell(&mut out, &e, 1, k, Value::Integer(x.if_index as i64));
        push_cell(&mut out, &e, 2, k, Value::OctetString(mac));
        push_cell(&mut out, &e, 3, k, Value::IpAddress(x.net_address));
        assert(cells(out@) =~= before + at_row(x@));
        i += 1;
    }
    assert(all.take(i as int) =~= all);
    out
}

/// The cells of the table, in order.
pub fn at_cells(entries: &[ArpEntry]) -> (r: Vec<(Oid, Value)>)
    ensures
        is_table_of(cells(r@), at_rows(arp_views(entries@))),
{
    collect_cells(raw_at_cells(entries))
}

/// The handler of the table, for the text with the addresses.
pub fn at_handler(arp: &str) -> (r: FnHandler)
    ensures
        r.state() == table_state(at_table_root(), at_rows(arp_entries_of(arp@))),
{
    let root = Oid::new(vec![1, 3, 6, 1, 2, 1, 3, 1]);
    assert(root@ =~= at_table_root());
    let entries = parse_arp_entries(arp);
    FnHandler::table(root, raw_at_cells(entries.as_slice()))
}

} // verus!
