//! The counters of the protocol.

use vstd::prelude::*;

use crate::cells::cell;
use crate::cells::cells;
use crate::cells::push_row_cell;
use crate::cells::CellView;
use crate::mibgroup::live::LiveHandler;
use crate::mibgroup::live::LiveSource;
use crate::mibgroup::live::LiveState;
use crate::mibgroup::live::LiveView;
use crate::oid::Oid;
use crate::registry::handler_states;
use crate::value::Value;
use crate::value::ValueView;

verus! {

/// The counters, in their order.
#[derive(Clone, Copy, Debug, PartialEq, Eq, Structural)]
pub enum SnmpCounter {
    /// `snmpInPkts`.
    InPkgs,
    /// `snmpInBadVersions`.
    InBadVersions,
    /// `snmpInBadCommunityNames`.
    InBadCommunityNames,
    /// `snmpInBadCommunityUses`.
    InBadCommunityUses,
    /// `snmpInASNParseErrs`.
    InASNParseErrs,
    /// `snmpInBadTypes`.
    InBadTypes,
    /// `snmpInTooBigs`.
    InTooBigs,
    /// `snmpInNoSuchNames`.
    InNoSuchNames,
    /// `snmpInBadValues`.
    InBadValues,
    /// `snmpInReadOnlys`.
    InReadOnlys,
    /// `snmpInGenErrs`.
    InGenErrs,
    /// `snmpInTotalReqVars`.
    InTotalReqVars,
    /// `snmpInTotalSetVars`.
    InTotalSetVars,
    /// `snmpInGetRequests`.
    InGetRequests,
    /// `snmpInGetNexts`.
    InGetNexts,
    /// `snmpInSetRequests`.
    InSetRequests,
    /// `snmpInGetResponses`.
    InGetResponses,
    /// `snmpInTraps`.
    InTraps,
    /// `snmpOutPkts`.
    OutPkts,
    /// `snmpOutTooBigs`.
    OutTooBigs,
    /// `snmpOutNoSuchNames`.
    OutNoSuchNames,
    /// `snmpOutBadValues`.
    OutBadValues,
    /// `snmpOutGenErrs`.
    OutGenErrs,
    /// `snmpOutGetRequests`.
    OutGetRequests,
    /// `snmpOutGetNexts`.
    OutGetNexts,
    /// `snmpOutSetRequests`.
    OutSetRequests,
    /// `snmpOutGetResponses`.
    OutGetResponses,
    /// `snmpOutTraps`.
    OutTraps,
    /// `snmpEnableAuthenTraps`, which is no counter.
    EnableAuthenTraps,
    /// `snmpSilentDrops`.
    SilentDrops,
    /// `snmpProxyDrops`.
    ProxyDrops,
}

impl SnmpCounter {
    /// The position among the counters, from zero.
    pub open spec fn slot(self) -> int {
        match self {
            SnmpCounter::InPkgs => 0,
            SnmpCounter::InBadVersions => 1,
            SnmpCounter::InBadCommunityNames => 2,
            SnmpCounter::InBadCommunityUses => 3,
            SnmpCounter::InASNParseErrs => 4,
            SnmpCounter::InBadTypes => 5,
            SnmpCounter::InTooBigs => 6,
            SnmpCounter::InNoSuchNames => 7,
            SnmpCounter::InBadValues => 8,
            SnmpCounter::InReadOnlys => 9,
            SnmpCounter::InGenErrs => 10,
            SnmpCounter::InTotalReqVars => 11,
            SnmpCounter::InTotalSetVars => 12,
            SnmpCounter::InGetRequests => 13,
            SnmpCounter::InGetNexts => 14,
            SnmpCounter::InSetRequests => 15,
            SnmpCounter::InGetResponses => 16,
            SnmpCounter::InTraps => 17,
            SnmpCounter::OutPkts => 18,
            SnmpCounter::OutTooBigs => 19,
            SnmpCounter::OutNoSuchNames => 20,
            SnmpCounter::OutBadValues => 21,
            SnmpCounter::OutGenErrs => 22,
            SnmpCounter::OutGetRequests => 23,
            SnmpCounter::OutGetNexts => 24,
            SnmpCounter::OutSetRequests => 25,
            SnmpCounter::OutGetResponses => 26,
            SnmpCounter::OutTraps => 27,
            SnmpCounter::EnableAuthenTraps => 28,
            SnmpCounter::SilentDrops => 29,
            SnmpCounter::ProxyDrops => 30,
        }
    }

    fn index(self) -> (r: usize)
        ensures
            r == self.slot(),
            r < 31,
    {
        match self {
            SnmpCounter::InPkgs => 0,
            SnmpCounter::InBadVersions => 1,
            SnmpCounter::InBadCommunityNames => 2,
            SnmpCounter::InBadCommunityUses => 3,
            SnmpCounter::InASNParseErrs => 4,
            SnmpCounter::InBadTypes => 5,
            SnmpCounter::InTooBigs => 6,
            SnmpCounter::InNoSuchNames => 7,
            SnmpCounter::InBadValues => 8,
            SnmpCounter::InReadOnlys => 9,
            SnmpCounter::InGenErrs => 10,
            SnmpCounter::InTotalReqVars => 11,
            SnmpCounter::InTotalSetVars => 12,
            SnmpCounter::InGetRequests => 13,
            SnmpCounter::InGetNexts => 14,
            SnmpCounter::InSetRequests => 15,
            SnmpCounter::InGetResponses => 16,
            SnmpCounter::InTraps => 17,
            SnmpCounter::OutPkts => 18,
            SnmpCounter::OutTooBigs => 19,
            SnmpCounter::OutNoSuchNames => 20,
            SnmpCounter::OutBadValues => 21,
            SnmpCounter::OutGenErrs => 22,
            SnmpCounter::OutGetRequests => 23,
            SnmpCounter::OutGetNexts => 24,
            SnmpCounter::OutSetRequests => 25,
            SnmpCounter::OutGetResponses => 26,
            SnmpCounter::OutTraps => 27,
            SnmpCounter::EnableAuthenTraps => 28,
            SnmpCounter::SilentDrops => 29,
            SnmpCounter::ProxyDrops => 30,
        }
    }

    /// The number below the group, from one.
    pub fn subid(self) -> (r: u32)
        ensures
            r == self.slot() + 1,
    {
        self.index() as u32 + 1
    }
}

/// A counter that wraps around.
pub open spec fn wrapped(n: int) -> u64 {
    (n % 0x1_0000_0000_0000_0000) as u64
}

/// The counters of the protocol.
#[derive(Debug)]
pub struct SnmpCounters {
    counters: [u64; 31],
}

/// The root of the group.
pub open spec fn snmp_root() -> Seq<u32> {
    seq![1u32, 3, 6, 1, 2, 1, 11]
}

/// The cell of the counter at the position `slot`. The one that is no counter is disabled(2).
pub open spec fn counter_cell(counts: Seq<u64>, slot: int) -> CellView {
    cell(
        snmp_root(),
        (slot + 1) as u32,
        0,
        if slot == 28 {
            ValueView::Integer(2)
        } else {
            ValueView::Counter32((counts[slot] % 0x1_0000_0000) as u32)
        },
    )
}

/// The cells of all counters.
pub open spec fn counter_cells(counts: Seq<u64>) -> Seq<CellView> {
    Seq::new(31, |slot: int| counter_cell(counts, slot))
}

impl SnmpCounters {
    /// The counts.
    pub closed spec fn counts(self) -> Seq<u64> {
        self.counters@
    }

    /// Counters at zero.
    pub fn new() -> (r: SnmpCounters)
        ensures
            r.counts() == Seq::new(31, |i: int| 0u64),
    {
        let r = SnmpCounters { counters: [0;31] };
        assert(r.counters@ =~= Seq::new(31, |i: int| 0u64));
        r
    }

    /// Count one more.
    pub fn inc(&mut self, which: SnmpCounter)
        ensures
            old(self).counts().len() == 31,
            final(self).counts() == old(self).counts().update(
                which.slot(),
                wrapped(old(self).counts()[which.slot()] + 1),
            ),
    {
        self.inc_by(which, 1);
    }

    /// Count `n` more.
    pub fn inc_by(&mut self, which: SnmpCounter, n: u64)
        ensures
            old(self).counts().len() == 31,
            final(self).counts() == old(self).counts().update(
                which.slot(),
                wrapped(old(self).counts()[which.slot()] + n),
            ),
    {
        let i: usize = which.index();
        let sum: u128 = self.counters[i] as u128 + n as u128;
        self.counters[i] = (sum % 0x1_0000_0000_0000_0000) as u64;
    }

    /// The count.
    pub fn load(&self, which: SnmpCounter) -> (r: u64)
        ensures
            self.counts().len() == 31,
            r == self.counts()[which.slot()],
    {
        self.counters[which.index()]
    }

    /// The cells of the group.
    pub fn cells(&self) -> (r: Vec<(Oid, Value)>)
        ensures
            self.counts().len() == 31,
            cells(r@) == counter_cells(self.counts()),
    {
        let e: [u32; 7] = [1, 3, 6, 1, 2, 1, 11];
        assert(e@ =~= snmp_root());
        let mut out: Vec<(Oid, Value)> = Vec::new();
        let mut slot: usize = 0;
        while slot < 31
            invariant
                slot <= 31,
                e@ == snmp_root(),
                cells(out@) =~= counter_cells(self.counts()).take(slot as int),
            decreases 31 - slot,
        {
            let value = if slot == 28 {
                Value::Integer(2)
            } else {
                Value::Counter32((self.counters[slot] % 0x1_0000_0000) as u32)
            };
            push_row_cell(&mut out, &e, slot as u32 + 1, 0, value);
            slot += 1;
        }
        out
    }
}

impl Default for SnmpCounters {
    fn default() -> (r: SnmpCounters)
        ensures
            r.counts() == Seq::new(31, |i: int| 0u64),
    {
        SnmpCounters::new()
    }
}

/// Each counter has its count, whatever has been counted.
pub proof fn every_counter_has_a_count(c: SnmpCounters)
    ensures
        c.counts().len() == 31,
{
}

/// Counting in one counter leaves the others as they are.
pub proof fn counters_are_independent(counts: Seq<u64>, a: SnmpCounter, b: SnmpCounter, n: u64)
    requires
        counts.len() == 31,
        a != b,
    ensures
        counts.update(a.slot(), n)[b.slot()] == counts[b.slot()],
        counts.update(a.slot(), n)[a.slot()] == n,
{
}

/// The handlers of the group: one that serves `counters`, and lends them to whoever counts.
pub fn snmp_mib_handlers(counters: SnmpCounters) -> (r: Vec<LiveHandler>)
    ensures
        handler_states(r@) == seq![
            LiveState { root: snmp_root(), source: LiveView::Counters(counters.counts()) },
        ],
{
    let root = Oid::new(vec![1, 3, 6, 1, 2, 1, 11]);
    assert(root@ =~= snmp_root());
    let ghost n = counters.counts();
    let r = vec![LiveHandler::new(root, LiveSource::Counters(counters))];
    assert(handler_states(r@) =~= seq![
        LiveState { root: snmp_root(), source: LiveView::Counters(n) },
    ]);
    r
}

} // verus!
