//! The counters of message dispatch.

use vstd::prelude::*;

use crate::cells::cell;
use crate::cells::cells;
use crate::cells::push_row_cell;
use crate::cells::CellView;
use crate::handler::MibHandler;
use crate::mibgroup::live::LiveHandler;
use crate::mibgroup::live::LiveSource;
use crate::mibgroup::live::LiveState;
use crate::mibgroup::live::LiveView;
use crate::mibgroup::snmp_mib::wrapped;
use crate::oid::Oid;
use crate::value::Value;
use crate::value::ValueView;

verus! {

/// The root of the group.
pub open spec fn snmp_mpd_root() -> Seq<u32> {
    seq![1u32, 3, 6, 1, 6, 3, 11, 2, 1]
}

/// The counters of message dispatch.
#[derive(Debug)]
pub struct SnmpMpdStats {
    /// Messages with an unknown security model.
    pub unknown_security_models: u64,
    /// Messages that could not be read.
    pub invalid_msgs: u64,
}

/// The cells of the two counters: the low 32 bits of each.
pub open spec fn mpd_cells(s: SnmpMpdStats) -> Seq<CellView> {
    seq![
        cell(
            snmp_mpd_root(),
            1,
            0,
            ValueView::Counter32((s.unknown_security_models % 0x1_0000_0000) as u32),
        ),
        cell(
            snmp_mpd_root(),
            2,
            0,
            ValueView::Counter32((s.invalid_msgs % 0x1_0000_0000) as u32),
        ),
    ]
}

fn count_on(n: u64) -> (r: u64)
    ensures
        r == wrapped(n + 1),
{
    if n == u64::MAX {
        0
    } else {
        n + 1
    }
}

impl SnmpMpdStats {
    /// Counters at zero.
    pub fn new() -> (r: SnmpMpdStats)
        ensures
            r == (SnmpMpdStats { unknown_security_models: 0, invalid_msgs: 0 }),
    {
        SnmpMpdStats { unknown_security_models: 0, invalid_msgs: 0 }
    }

    /// Count a message with an unknown security model.
    pub fn inc_unknown_security_model(&mut self)
        ensures
            *final(self) == (SnmpMpdStats {
                unknown_security_models: wrapped(old(self).unknown_security_models + 1),
                ..*old(self)
            }),
    {
        self.unknown_security_models = count_on(self.unknown_security_models);
    }

    /// Count a message that could not be read.
    pub fn inc_invalid_msg(&mut self)
        ensures
            *final(self) == (SnmpMpdStats {
                invalid_msgs: wrapped(old(self).invalid_msgs + 1),
                ..*old(self)
            }),
    {
        self.invalid_msgs = count_on(self.invalid_msgs);
    }

    /// The cells of the group.
    pub fn cells(&self) -> (r: Vec<(Oid, Value)>)
        ensures
            cells(r@) == mpd_cells(*self),
    {
        let e: [u32; 9] = [1, 3, 6, 1, 6, 3, 11, 2, 1];
        assert(e@ =~= snmp_mpd_root());
        let unknown: u32 = (self.unknown_security_models % 0x1_0000_0000) as u32;
        let invalid: u32 = (self.invalid_msgs % 0x1_0000_0000) as u32;
        let mut out: Vec<(Oid, Value)> = Vec::new();
        push_row_cell(&mut out, &e, 1, 0, Value::Counter32(unknown));
        push_row_cell(&mut out, &e, 2, 0, Value::Counter32(invalid));
        assert(cells(out@) =~= mpd_cells(*self));
        out
    }
}

impl Default for SnmpMpdStats {
    fn default() -> (r: SnmpMpdStats)
        ensures
            r == (SnmpMpdStats { unknown_security_models: 0, invalid_msgs: 0 }),
    {
        SnmpMpdStats::new()
    }
}

/// The handler that serves counters of its own, which begin at zero.
pub fn snmp_mpd_handler() -> (r: LiveHandler)
    ensures
        r.state() == (LiveState {
            root: snmp_mpd_root(),
            source: LiveView::Mpd(SnmpMpdStats { unknown_security_models: 0, invalid_msgs: 0 }),
        }),
{
    snmp_mpd_handler_with(SnmpMpdStats::new())
}

/// The handler that serves `stats`, and lends them to whoever counts.
pub fn snmp_mpd_handler_with(stats: SnmpMpdStats) -> (r: LiveHandler)
    ensures
        r.state() == (LiveState { root: snmp_mpd_root(), source: LiveView::Mpd(stats) }),
{
    let root = Oid::new(vec![1, 3, 6, 1, 6, 3, 11, 2, 1]);
    assert(root@ =~= snmp_mpd_root());
    LiveHandler::new(root, LiveSource::Mpd(stats))
}

} // verus!
