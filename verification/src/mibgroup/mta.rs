//! The mail transfer table, which is empty on a host without a managed mail transfer agent.

use vstd::prelude::*;

use crate::oid::Oid;
use crate::registry::handler_states;
use crate::scalar::FnHandler;
use crate::scalar::FnState;
use crate::value::Value;

verus! {

/// The root of the mail transfer table.
pub open spec fn mta_table_root() -> Seq<u32> {
    seq![1u32, 3, 6, 1, 2, 1, 28, 1, 1]
}

/// The cells of the mail transfer table: none.
pub fn mta_cells() -> (r: Vec<(Oid, Value)>)
    ensures
        r@.len() == 0,
{
    Vec::new()
}

/// The handlers of the mail transfer table.
pub fn mta_handlers() -> (r: Vec<FnHandler>)
    ensures
        handler_states(r@) == seq![FnState { root: mta_table_root(), cells: seq![] }],
{
    let a = Oid::new(vec![1, 3, 6, 1, 2, 1, 28, 1, 1]);
    assert(a@ =~= mta_table_root());
    let r = vec![FnHandler::empty(a)];
    assert(handler_states(r@) =~= seq![
        FnState { root: mta_table_root(), cells: seq![] },
    ]);
    r
}

} // verus!
