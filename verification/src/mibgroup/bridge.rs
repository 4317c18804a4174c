//! The bridge tables, which are empty on a host that is no bridge.

use vstd::prelude::*;

use crate::oid::Oid;
use crate::registry::handler_states;
use crate::scalar::FnHandler;
use crate::scalar::FnState;
use crate::value::Value;

verus! {

/// The root of the table of bridge ports.
pub open spec fn base_port_root() -> Seq<u32> {
    seq![1u32, 3, 6, 1, 2, 1, 17, 1, 4]
}

/// The root of the table of forwarding entries.
pub open spec fn tp_fdb_root() -> Seq<u32> {
    seq![1u32, 3, 6, 1, 2, 1, 17, 4, 3]
}

/// The cells of the bridge tables: none.
pub fn bridge_cells() -> (r: Vec<(Oid, Value)>)
    ensures
        r@.len() == 0,
{
    Vec::new()
}

/// The handlers of the bridge tables: ports and forwarding entries.
pub fn bridge_handlers() -> (r: Vec<FnHandler>)
    ensures
        handler_states(r@) == seq![
            FnState { root: base_port_root(), cells: seq![] },
            FnState { root: tp_fdb_root(), cells: seq![] },
        ],
{
    let a = Oid::new(vec![1, 3, 6, 1, 2, 1, 17, 1, 4]);
    assert(a@ =~= base_port_root());
    let b = Oid::new(vec![1, 3, 6, 1, 2, 1, 17, 4, 3]);
    assert(b@ =~= tp_fdb_root());
    let r = vec![FnHandler::empty(a), FnHandler::empty(b)];
    assert(handler_states(r@) =~= seq![
        FnState { root: base_port_root(), cells: seq![] },
        FnState { root: tp_fdb_root(), cells: seq![] },
    ]);
    r
}

} // verus!
