//! The tunnel table, which is empty on a host without tunnels.

use vstd::prelude::*;

use crate::oid::Oid;
use crate::registry::handler_states;
use crate::scalar::FnHandler;
use crate::scalar::FnState;
use crate::value::Value;

verus! {

/// The root of the tunnel table.
pub open spec fn tunnel_if_root() -> Seq<u32> {
    seq![1u32, 3, 6, 1, 2, 1, 10, 131, 1, 1]
}

/// The cells of the tunnel table: none.
pub fn tunnel_cells() -> (r: Vec<(Oid, Value)>)
    ensures
        r@.len() == 0,
{
    Vec::new()
}

/// The handlers of the tunnel table.
pub fn tunnel_handlers() -> (r: Vec<FnHandler>)
    ensures
        handler_states(r@) == seq![FnState { root: tunnel_if_root(), cells: seq![] }],
{
    let a = Oid::new(vec![1, 3, 6, 1, 2, 1, 10, 131, 1, 1]);
    assert(a@ =~= tunnel_if_root());
    let r = vec![FnHandler::empty(a)];
    assert(handler_states(r@) =~= seq![
        FnState { root: tunnel_if_root(), cells: seq![] },
    ]);
    r
}

} // verus!
