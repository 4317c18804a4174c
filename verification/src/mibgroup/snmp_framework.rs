//! The engine of the agent: its id, boots, time and greatest message.

use vstd::prelude::*;

use crate::handler::MibHandler;
use crate::oid::Oid;
use crate::scalar::scalar_state;
use crate::scalar::FnHandler;
use crate::scalar::FnState;
use crate::value::copy_bytes;
use crate::value::Value;
use crate::value::ValueView;

verus! {

/// The greatest message, in bytes.
pub const MAX_MESSAGE_SIZE: i64 = 65_507;

/// The root of the engine group.
pub open spec fn snmp_engine_root() -> Seq<u32> {
    seq![1u32, 3, 6, 1, 6, 3, 10, 2, 1]
}

/// The engine at one point in time.
#[derive(Debug)]
pub struct EngineSnapshot {
    /// The engine id.
    pub engine_id: Vec<u8>,
    /// How often it has booted.
    pub engine_boots: u32,
    /// The seconds since the boot, where the time of the boot is known.
    pub seconds_up: Option<u64>,
}

/// The seconds since the boot in 32 bits; zero where the time of the boot is not known.
pub open spec fn engine_time_of(seconds_up: Option<u64>) -> u32 {
    match seconds_up {
        Some(t) => (t % 0x1_0000_0000) as u32,
        None => 0,
    }
}

impl EngineSnapshot {
    /// The seconds since the boot.
    pub fn engine_time(&self) -> (r: u32)
        ensures
            r == engine_time_of(self.seconds_up),
    {
        match self.seconds_up {
            Some(t) => (t % 0x1_0000_0000) as u32,
            None => 0,
        }
    }
}

impl Default for EngineSnapshot {
    fn default() -> (r: EngineSnapshot)
        ensures
            r.engine_id@.len() == 0,
            r.engine_boots == 0,
            r.seconds_up is None,
    {
        EngineSnapshot { engine_id: Vec::new(), engine_boots: 0, seconds_up: None }
    }
}

/// The states of the four handlers of an engine.
pub open spec fn framework_states(e: EngineSnapshot) -> Seq<FnState> {
    let root = snmp_engine_root();
    seq![
        scalar_state(root.push(1), ValueView::OctetString(e.engine_id@)),
        scalar_state(root.push(2), ValueView::Integer(e.engine_boots as i64)),
        scalar_state(root.push(3), ValueView::Integer(engine_time_of(e.seconds_up) as i64)),
        scalar_state(root.push(4), ValueView::Integer(MAX_MESSAGE_SIZE)),
    ]
}

/// The four handlers of an engine.
pub fn snmp_framework_handlers(engine: &EngineSnapshot) -> (r: Vec<FnHandler>)
    ensures
        r@.map_values(|h: FnHandler| h.state()) == framework_states(*engine),
{
    let base = Oid::new(vec![1, 3, 6, 1, 6, 3, 10, 2, 1]);
    assert(base@ =~= snmp_engine_root());
    let id = copy_bytes(engine.engine_id.as_slice());
    let r = vec![
        FnHandler::scalar(base.child(1), Value::OctetString(id)),
        FnHandler::scalar(base.child(2), Value::Integer(engine.engine_boots as i64)),
        FnHandler::scalar(base.child(3), Value::Integer(engine.engine_time() as i64)),
        FnHandler::scalar(base.child(4), Value::Integer(MAX_MESSAGE_SIZE)),
    ];
    assert(r@.map_values(|h: FnHandler| h.state()) =~= framework_states(*engine));
    r
}

} // verus!
