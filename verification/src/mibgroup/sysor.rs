//! The table of the subsystems that an agent serves.

use vstd::prelude::*;

use crate::cells::cell;
use crate::cells::cells;
use crate::cells::push_row_cell;
use crate::cells::row_number;
use crate::cells::CellView;
use crate::handler::MibHandler;
use crate::mibgroup::live::LiveHandler;
use crate::mibgroup::live::LiveSource;
use crate::mibgroup::live::LiveState;
use crate::mibgroup::live::LiveView;
use crate::notify::uptime_ticks;
use crate::oid::Oid;
use crate::value::text_value;
use crate::value::utf8;
use crate::value::Value;
use crate::value::ValueView;

verus! {

/// The row prefix of the table.
pub open spec fn sys_or_entry() -> Seq<u32> {
    seq![1u32, 3, 6, 1, 2, 1, 1, 9, 1]
}

/// One subsystem.
#[derive(Debug)]
struct SysOrEntry {
    id: Oid,
    descr: String,
    uptime_ticks: u32,
}

/// The mathematical content of one row: the object of the subsystem, its description, and the
/// uptime when it was registered.
#[verifier::ext_equal]
pub struct SysOrView {
    pub id: Seq<u32>,
    pub descr: Seq<char>,
    pub uptime_ticks: u32,
}

/// The table of subsystems, to which rows are only added. A row is numbered by its position, from
/// one.
#[derive(Debug)]
pub struct SysOrTable {
    rows: Vec<SysOrEntry>,
}

impl View for SysOrTable {
    type V = Seq<SysOrView>;

    closed spec fn view(&self) -> Seq<SysOrView> {
        self.rows@.map_values(
            |r: SysOrEntry|
                SysOrView { id: r.id@, descr: r.descr@, uptime_ticks: r.uptime_ticks },
        )
    }
}

/// The cells of the row `index`.
pub open spec fn sys_or_row(index: u32, r: SysOrView) -> Seq<CellView> {
    let e = sys_or_entry();
    seq![
        cell(e, 2, index, ValueView::Oid(r.id)),
        cell(e, 3, index, ValueView::OctetString(utf8(r.descr))),
        cell(e, 4, index, ValueView::TimeTicks(r.uptime_ticks)),
    ]
}

/// The cells of the rows, one after the other.
pub open spec fn sys_or_cells(rows: Seq<SysOrView>) -> Seq<CellView>
    decreases rows.len(),
{
    if rows.len() == 0 {
        seq![]
    } else {
        sys_or_cells(rows.drop_last()) + sys_or_row(rows.len() as u32, rows.last())
    }
}

impl SysOrTable {
    /// A table without rows.
    pub fn new() -> (r: SysOrTable)
        ensures
            r@ == Seq::<SysOrView>::empty(),
    {
        let r = SysOrTable { rows: Vec::new() };
        assert(r@ =~= Seq::<SysOrView>::empty());
        r
    }

    /// Add a subsystem `elapsed_ms` milliseconds after the boot, and give the number of its row.
    pub fn register(&mut self, id: Oid, descr: String, elapsed_ms: u64) -> (r: u32)
        requires
            old(self)@.len() < u32::MAX,
        ensures
            final(self)@ == old(self)@.push(
                SysOrView { id: id@, descr: descr@, uptime_ticks: uptime_ticks(elapsed_ms) },
            ),
            r == old(self)@.len() + 1,
    {
        let ghost before = self@;
        let ticks: u32 = ((elapsed_ms / 10) % 0x1_0000_0000) as u32;
        let index: u32 = self.rows.len() as u32 + 1;
        self.rows.push(SysOrEntry { id, descr, uptime_ticks: ticks });
        assert(self@ =~= before.push(
            SysOrView { id: id@, descr: descr@, uptime_ticks: uptime_ticks(elapsed_ms) },
        ));
        index
    }

    /// The number of rows.
    pub fn len(&self) -> (r: usize)
        ensures
            r == self@.len(),
    {
        self.rows.len()
    }

    /// The cells of the table.
    pub fn cells(&self) -> (r: Vec<(Oid, Value)>)
        ensures
            cells(r@) == sys_or_cells(self@),
    {
        let e: [u32; 9] = [1, 3, 6, 1, 2, 1, 1, 9, 1];
        assert(e@ =~= sys_or_entry());
        let ghost all = self@;
        let mut out: Vec<(Oid, Value)> = Vec::new();
        let mut i: usize = 0;
        proof {
            assert(all.take(0) =~= Seq::<SysOrView>::empty());
            assert(cells(out@) =~= Seq::<CellView>::empty());
        }
        while i < self.rows.len()
            invariant
                i <= self.rows@.len(),
                e@ == sys_or_entry(),
                all == self@,
                cells(out@) == sys_or_cells(all.take(i as int)),
            decreases self.rows@.len() - i,
        {
            let ghost before = cells(out@);
            let row = &self.rows[i];
            let index: u32 = row_number(i);
            proof {
                assert(all.take(i + 1).drop_last() =~= all.take(i as int));
                assert(all.take(i + 1).last() == all[i as int]);
            }
            push_row_cell(&mut out, &e, 2, index, Value::Oid(row.id.clone()));
            push_row_cell(&mut out, &e, 3, index, text_value(row.descr.as_str()));
            push_row_cell(&mut out, &e, 4, index, Value::TimeTicks(row.uptime_ticks));
            assert(cells(out@) =~= before + sys_or_row(index, all[i as int]));
            i += 1;
        }
        assert(all.take(i as int) =~= all);
        out
    }
}

/// The handler that serves `table`, and lends it to whoever adds rows.
pub fn sysor_handler(table: SysOrTable) -> (r: LiveHandler)
    ensures
        r.state() == (LiveState { root: sys_or_entry(), source: LiveView::SysOr(table@) }),
{
    let root = Oid::new(vec![1, 3, 6, 1, 2, 1, 1, 9, 1]);
    assert(root@ =~= sys_or_entry());
    LiveHandler::new(root, LiveSource::SysOr(table))
}

} // verus!
