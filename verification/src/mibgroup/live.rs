//! Counters and rows that change while they are served.

use vstd::prelude::*;

use crate::cells::cells;
use crate::cells::collect_cells;
use crate::cells::find;
use crate::cells::find_next;
use crate::cells::is_sorted;
use crate::cells::lemma_increasing_sorted;
use crate::cells::lookup;
use crate::cells::lookup_next;
use crate::cells::table_is_unique;
use crate::cells::table_of;
use crate::cells::CellView;
use crate::handler::MibHandler;
use crate::handler::Reading;
use crate::mibgroup::snmp_mib::counter_cells;
use crate::mibgroup::snmp_mib::SnmpCounters;
use crate::mibgroup::snmp_mpd::mpd_cells;
use crate::mibgroup::snmp_mpd::SnmpMpdStats;
use crate::mibgroup::sysor::sys_or_cells;
use crate::mibgroup::sysor::SysOrTable;
use crate::mibgroup::sysor::SysOrView;
use crate::mibgroup::usm_stats::usm_cells;
use crate::mibgroup::usm_stats::UsmStats;
use crate::oid::Oid;
use crate::pdu::ErrorStatus;
use crate::value::Value;
use crate::value::ValueView;

verus! {

/// What a live table is built from. There is one of each: the handler that serves it has it, and
/// lends it to whoever counts or adds rows.
#[derive(Debug)]
pub enum LiveSource {
    /// The counters of the protocol.
    Counters(SnmpCounters),
    /// The error counters of the security model.
    Usm(UsmStats),
    /// The counters of message dispatch.
    Mpd(SnmpMpdStats),
    /// The subsystems.
    SysOr(SysOrTable),
}

/// The mathematical content of a [`LiveSource`].
pub enum LiveView {
    /// The counters of the protocol.
    Counters(Seq<u64>),
    /// The error counters of the security model.
    Usm(Seq<u64>),
    /// The counters of message dispatch.
    Mpd(SnmpMpdStats),
    /// The subsystems.
    SysOr(Seq<SysOrView>),
}

/// The kinds of sources.
#[derive(Clone, Copy, Debug, PartialEq, Eq, Structural)]
pub enum LiveKind {
    /// The counters of the protocol.
    Counters,
    /// The error counters of the security model.
    Usm,
    /// The counters of message dispatch.
    Mpd,
    /// The subsystems.
    SysOr,
}

impl View for LiveSource {
    type V = LiveView;

    open spec fn view(&self) -> LiveView {
        match *self {
            LiveSource::Counters(c) => LiveView::Counters(c.counts()),
            LiveSource::Usm(c) => LiveView::Usm(c.counts()),
            LiveSource::Mpd(c) => LiveView::Mpd(c),
            LiveSource::SysOr(t) => LiveView::SysOr(t@),
        }
    }
}

impl LiveView {
    /// The kind of the source.
    pub open spec fn kind(self) -> LiveKind {
        match self {
            LiveView::Counters(_) => LiveKind::Counters,
            LiveView::Usm(_) => LiveKind::Usm,
            LiveView::Mpd(_) => LiveKind::Mpd,
            LiveView::SysOr(_) => LiveKind::SysOr,
        }
    }

    /// The cells of the source.
    pub open spec fn cells(self) -> Seq<CellView> {
        match self {
            LiveView::Counters(n) => counter_cells(n),
            LiveView::Usm(n) => usm_cells(n),
            LiveView::Mpd(s) => mpd_cells(s),
            LiveView::SysOr(rows) => sys_or_cells(rows),
        }
    }
}

/// A read-only handler that serves a source as it is at each request.
#[derive(Debug)]
pub struct LiveHandler {
    root: Oid,
    source: LiveSource,
}

/// The state of a [`LiveHandler`].
pub struct LiveState {
    pub root: Seq<u32>,
    pub source: LiveView,
}

impl LiveHandler {
    /// A handler rooted at `root` serving `source`.
    pub fn new(root: Oid, source: LiveSource) -> (r: LiveHandler)
        ensures
            r.state() == (LiveState { root: root@, source: source@ }),
    {
        LiveHandler { root, source }
    }

    /// The kind of the source.
    pub fn kind(&self) -> (r: LiveKind)
        ensures
            r == self.state().source.kind(),
    {
        match &self.source {
            LiveSource::Counters(_) => LiveKind::Counters,
            LiveSource::Usm(_) => LiveKind::Usm,
            LiveSource::Mpd(_) => LiveKind::Mpd,
            LiveSource::SysOr(_) => LiveKind::SysOr,
        }
    }

    /// The counters of the protocol that are served, for whoever counts.
    pub fn counters_mut(&mut self) -> (r: Option<&mut SnmpCounters>)
        ensures
            match old(self).state().source {
                LiveView::Counters(n) => {
                    &&& r is Some
                    &&& r->0.counts() == n
                    &&& final(self).state() == (LiveState {
                        source: LiveView::Counters(final(r->0).counts()),
                        ..old(self).state()
                    })
                },
                _ => r is None && *final(self) == *old(self),
            },
    {
        match &mut self.source {
            LiveSource::Counters(c) => Some(c),
            _ => None,
        }
    }

    /// The error counters that are served, for whoever counts.
    pub fn usm_mut(&mut self) -> (r: Option<&mut UsmStats>)
        ensures
            match old(self).state().source {
                LiveView::Usm(n) => {
                    &&& r is Some
                    &&& r->0.counts() == n
                    &&& final(self).state() == (LiveState {
                        source: LiveView::Usm(final(r->0).counts()),
                        ..old(self).state()
                    })
                },
                _ => r is None && *final(self) == *old(self),
            },
    {
        match &mut self.source {
            LiveSource::Usm(c) => Some(c),
            _ => None,
        }
    }

    /// The counters of message dispatch that are served, for whoever counts.
    pub fn mpd_mut(&mut self) -> (r: Option<&mut SnmpMpdStats>)
        ensures
            match old(self).state().source {
                LiveView::Mpd(s) => {
                    &&& r is Some
                    &&& *r->0 == s
                    &&& final(self).state() == (LiveState {
                        source: LiveView::Mpd(*final(r->0)),
                        ..old(self).state()
                    })
                },
                _ => r is None && *final(self) == *old(self),
            },
    {
        match &mut self.source {
            LiveSource::Mpd(c) => Some(c),
            _ => None,
        }
    }

    /// The table of subsystems that is served, for whoever adds rows.
    pub fn sysor_mut(&mut self) -> (r: Option<&mut SysOrTable>)
        ensures
            match old(self).state().source {
                LiveView::SysOr(rows) => {
                    &&& r is Some
                    &&& r->0@ == rows
                    &&& final(self).state() == (LiveState {
                        source: LiveView::SysOr(final(r->0)@),
                        ..old(self).state()
                    })
                },
                _ => r is None && *final(self) == *old(self),
            },
    {
        match &mut self.source {
            LiveSource::SysOr(t) => Some(t),
            _ => None,
        }
    }

    fn table(&self) -> (r: Vec<(Oid, Value)>)
        ensures
            cells(r@) == table_of(self.state().source.cells()),
            is_sorted(cells(r@)),
    {
        let raw = match &self.source {
            LiveSource::Counters(c) => c.cells(),
            LiveSource::Usm(c) => c.cells(),
            LiveSource::Mpd(c) => c.cells(),
            LiveSource::SysOr(t) => t.cells(),
        };
        let r = collect_cells(raw);
        proof {
            table_is_unique(cells(r@), self.state().source.cells());
            lemma_increasing_sorted(cells(r@));
        }
        r
    }
}

impl MibHandler for LiveHandler {
    type State = LiveState;

    closed spec fn state(&self) -> LiveState {
        LiveState { root: self.root@, source: self.source@ }
    }

    open spec fn root_of(s: LiveState) -> Seq<u32> {
        s.root
    }

    open spec fn get_of(s: LiveState, oid: Seq<u32>) -> Option<ValueView> {
        find(table_of(s.source.cells()), oid)
    }

    open spec fn next_of(s: LiveState, oid: Seq<u32>) -> Option<(Seq<u32>, ValueView)> {
        find_next(table_of(s.source.cells()), oid)
    }

    open spec fn prepare_of(s: LiveState, oid: Seq<u32>, value: ValueView) -> (
        LiveState,
        Result<(), ErrorStatus>,
    ) {
        (s, Ok(()))
    }

    open spec fn commit_of(s: LiveState, oid: Seq<u32>, value: ValueView) -> (
        LiveState,
        Result<(), ErrorStatus>,
    ) {
        (s, Err(ErrorStatus::NotWritable))
    }

    open spec fn undo_of(s: LiveState, oid: Seq<u32>, value: ValueView) -> (
        LiveState,
        Result<(), ErrorStatus>,
    ) {
        (s, Ok(()))
    }

    fn root(&self) -> (r: &Oid) {
        &self.root
    }

    fn get(&self, oid: &Oid) -> (r: Option<Value>) {
        let t = self.table();
        lookup(t.as_slice(), oid)
    }

    fn get_next(&self, oid: &Oid) -> (r: Option<Reading>) {
        let t = self.table();
        match lookup_next(t.as_slice(), oid) {
            Some((oid, value)) => Some(Reading { oid, value }),
            None => None,
        }
    }

    fn prepare_set(&mut self, oid: &Oid, value: &Value) -> (r: Result<(), ErrorStatus>) {
        Ok(())
    }

    fn commit_set(&mut self, oid: &Oid, value: &Value) -> (r: Result<(), ErrorStatus>) {
        Err(ErrorStatus::NotWritable)
    }

    fn undo_set(&mut self, oid: &Oid, value: &Value) -> (r: Result<(), ErrorStatus>) {
        Ok(())
    }
}

} // verus!
