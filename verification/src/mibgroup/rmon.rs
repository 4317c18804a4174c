//! The remote monitoring tables, which are empty on a host without probes.

use vstd::prelude::*;

use crate::oid::Oid;
use crate::registry::handler_states;
use crate::scalar::FnHandler;
use crate::scalar::FnState;
use crate::value::Value;

verus! {

/// The root of the table of alarms.
pub open spec fn alarm_root() -> Seq<u32> {
    seq![1u32, 3, 6, 1, 2, 1, 16, 3, 1]
}

/// The root of the table of events.
pub open spec fn event_root() -> Seq<u32> {
    seq![1u32, 3, 6, 1, 2, 1, 16, 9, 1]
}

/// The cells of the remote monitoring tables: none.
pub fn rmon_cells() -> (r: Vec<(Oid, Value)>)
    ensures
        r@.len() == 0,
{
    Vec::new()
}

/// The handlers of the remote monitoring tables: alarms and events.
pub fn rmon_handlers() -> (r: Vec<FnHandler>)
    ensures
        handler_states(r@) == seq![
            FnState { root: alarm_root(), cells: seq![] },
            FnState { root: event_root(), cells: seq![] },
        ],
{
    let a = Oid::new(vec![1, 3, 6, 1, 2, 1, 16, 3, 1]);
    assert(a@ =~= alarm_root());
    let b = Oid::new(vec![1, 3, 6, 1, 2, 1, 16, 9, 1]);
    assert(b@ =~= event_root());
    let r = vec![FnHandler::empty(a), FnHandler::empty(b)];
    assert(handler_states(r@) =~= seq![
        FnState { root: alarm_root(), cells: seq![] },
        FnState { root: event_root(), cells: seq![] },
    ]);
    r
}

} // verus!
