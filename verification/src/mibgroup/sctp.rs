//! The SCTP group on a host without associations.

use vstd::prelude::*;

use crate::cells::cell;
use crate::cells::cells;
use crate::cells::push_row_cell;
use crate::cells::CellView;
use crate::oid::Oid;
use crate::registry::handler_states;
use crate::scalar::table_state;
use crate::scalar::FnHandler;
use crate::scalar::FnState;
use crate::value::Value;
use crate::value::ValueView;

verus! {

/// The root of the group.
pub open spec fn sctp_root() -> Seq<u32> {
    seq![1u32, 3, 6, 1, 2, 1, 105]
}

/// The cells of the scalars: the algorithm is other(1), the number of associations is not
/// limited, and the rest is zero.
pub open spec fn sctp_rows() -> Seq<CellView> {
    let e = sctp_root();
    seq![
        cell(e, 1, 0, ValueView::Integer(1)),
        cell(e, 2, 0, ValueView::Integer(0)),
        cell(e, 3, 0, ValueView::Integer(0)),
        cell(e, 4, 0, ValueView::Integer(0)),
        cell(e, 7, 0, ValueView::Gauge32(u32::MAX)),
        cell(e, 9, 0, ValueView::Integer(0)),
        cell(e, 10, 0, ValueView::Integer(0)),
    ]
}

/// The cells of the scalars.
pub fn sctp_scalar_cells() -> (r: Vec<(Oid, Value)>)
    ensures
        cells(r@) == sctp_rows(),
{
    let e: [u32; 7] = [1, 3, 6, 1, 2, 1, 105];
    assert(e@ =~= sctp_root());
    let mut out: Vec<(Oid, Value)> = Vec::new();
    push_row_cell(&mut out, &e, 1, 0, Value::Integer(1));
    push_row_cell(&mut out, &e, 2, 0, Value::Integer(0));
    push_row_cell(&mut out, &e, 3, 0, Value::Integer(0));
    push_row_cell(&mut out, &e, 4, 0, Value::Integer(0));
    push_row_cell(&mut out, &e, 7, 0, Value::Gauge32(u32::MAX));
    push_row_cell(&mut out, &e, 9, 0, Value::Integer(0));
    push_row_cell(&mut out, &e, 10, 0, Value::Integer(0));
    assert(cells(out@) =~= sctp_rows());
    out
}

/// The states of the handlers: the scalars, and a table of associations without rows.
pub open spec fn sctp_states() -> Seq<FnState> {
    seq![
        table_state(sctp_root(), sctp_rows()),
        FnState { root: sctp_root().push(3).push(1), cells: seq![] },
    ]
}

/// The handlers of the group.
pub fn sctp_handlers() -> (r: Vec<FnHandler>)
    ensures
        handler_states(r@) == sctp_states(),
{
    let root = Oid::new(vec![1, 3, 6, 1, 2, 1, 105]);
    assert(root@ =~= sctp_root());
    let assoc = root.child(3).child(1);
    let r = vec![FnHandler::table(root, sctp_scalar_cells()), FnHandler::empty(assoc)];
    assert(handler_states(r@) =~= sctp_states());
    r
}

} // verus!
