//! The error counters of the user-based security model.

use vstd::prelude::*;

use crate::cells::cell;
use crate::cells::cells;
use crate::cells::push_row_cell;
use crate::cells::CellView;
use crate::handler::MibHandler;
use crate::mibgroup::live::LiveHandler;
use crate::mibgroup::live::LiveSource;
use crate::mibgroup::live::LiveState;
use crate::mibgroup::live::LiveView;
use crate::mibgroup::snmp_mib::wrapped;
use crate::oid::Oid;
use crate::value::Value;
use crate::value::ValueView;

verus! {

/// Why a message was refused.
#[derive(Clone, Copy, Debug, PartialEq, Eq, Structural)]
pub enum UsmStat {
    /// `usmStatsUnsupportedSecLevels`.
    UnsupportedSecLevels,
    /// `usmStatsNotInTimeWindows`.
    NotInTimeWindows,
    /// `usmStatsUnknownUserNames`.
    UnknownUserNames,
    /// `usmStatsUnknownEngineIDs`.
    UnknownEngineIDs,
    /// `usmStatsWrongDigests`.
    WrongDigests,
    /// `usmStatsDecryptionErrors`.
    DecryptionErrors,
}

impl UsmStat {
    /// The position among the counters, from zero.
    pub open spec fn slot(self) -> int {
        match self {
            UsmStat::UnsupportedSecLevels => 0,
            UsmStat::NotInTimeWindows => 1,
            UsmStat::UnknownUserNames => 2,
            UsmStat::UnknownEngineIDs => 3,
            UsmStat::WrongDigests => 4,
            UsmStat::DecryptionErrors => 5,
        }
    }
}

/// The position of a counter, from zero.
pub fn index_of(which: UsmStat) -> (r: usize)
    ensures
        r == which.slot(),
        r < 6,
{
    match which {
        UsmStat::UnsupportedSecLevels => 0,
        UsmStat::NotInTimeWindows => 1,
        UsmStat::UnknownUserNames => 2,
        UsmStat::UnknownEngineIDs => 3,
        UsmStat::WrongDigests => 4,
        UsmStat::DecryptionErrors => 5,
    }
}

/// The root of the group.
pub open spec fn usm_stats_root() -> Seq<u32> {
    seq![1u32, 3, 6, 1, 6, 3, 15, 1, 1]
}

/// The cells of the counters: the low 32 bits of each.
pub open spec fn usm_cells(counts: Seq<u64>) -> Seq<CellView> {
    Seq::new(
        6,
        |i: int|
            cell(
                usm_stats_root(),
                (i + 1) as u32,
                0,
                ValueView::Counter32((counts[i] % 0x1_0000_0000) as u32),
            ),
    )
}

/// The error counters.
#[derive(Debug)]
pub struct UsmStats {
    counters: [u64; 6],
}

impl UsmStats {
    /// The counts.
    pub closed spec fn counts(self) -> Seq<u64> {
        self.counters@
    }

    /// Counters at zero.
    pub fn new() -> (r: UsmStats)
        ensures
            r.counts() == Seq::new(6, |i: int| 0u64),
    {
        let r = UsmStats { counters: [0;6] };
        assert(r.counters@ =~= Seq::new(6, |i: int| 0u64));
        r
    }

    /// Count one more.
    pub fn inc(&mut self, which: UsmStat)
        ensures
            old(self).counts().len() == 6,
            final(self).counts() == old(self).counts().update(
                which.slot(),
                wrapped(old(self).counts()[which.slot()] + 1),
            ),
    {
        let i: usize = index_of(which);
        let n: u64 = self.counters[i];
        self.counters[i] = if n == u64::MAX {
            0
        } else {
            n + 1
        };
    }

    /// The cells of the group.
    pub fn cells(&self) -> (r: Vec<(Oid, Value)>)
        ensures
            self.counts().len() == 6,
            cells(r@) == usm_cells(self.counts()),
    {
        let e: [u32; 9] = [1, 3, 6, 1, 6, 3, 15, 1, 1];
        assert(e@ =~= usm_stats_root());
        let mut out: Vec<(Oid, Value)> = Vec::new();
        let mut i: usize = 0;
        while i < 6
            invariant
                i <= 6,
                e@ == usm_stats_root(),
                cells(out@) =~= usm_cells(self.counts()).take(i as int),
            decreases 6 - i,
        {
            let count: u32 = (self.counters[i] % 0x1_0000_0000) as u32;
            push_row_cell(&mut out, &e, i as u32 + 1, 0, Value::Counter32(count));
            i += 1;
        }
        out
    }
}

impl Default for UsmStats {
    fn default() -> (r: UsmStats)
        ensures
            r.counts() == Seq::new(6, |i: int| 0u64),
    {
        UsmStats::new()
    }
}

/// Each counter has its count, whatever has been counted.
pub proof fn every_counter_has_a_count(c: UsmStats)
    ensures
        c.counts().len() == 6,
{
}

/// The handler that serves `stats`, and lends them to whoever counts.
pub fn usm_stats_handler(stats: UsmStats) -> (r: LiveHandler)
    ensures
        r.state() == (LiveState {
            root: usm_stats_root(),
            source: LiveView::Usm(stats.counts()),
        }),
{
    let root = Oid::new(vec![1, 3, 6, 1, 6, 3, 15, 1, 1]);
    assert(root@ =~= usm_stats_root());
    LiveHandler::new(root, LiveSource::Usm(stats))
}

} // verus!
