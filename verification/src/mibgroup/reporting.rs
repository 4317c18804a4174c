//! Lends what a registry serves to whoever counts, and brings its tables up to date.

use vstd::prelude::*;

use crate::any_handler::AnyHandler;
use crate::any_handler::AnyState;
use crate::cells::find;
use crate::cells::table_of;
use crate::handler::MibHandler;
use crate::mibgroup::live::LiveKind;
use crate::mibgroup::live::LiveState;
use crate::mibgroup::live::LiveView;
use crate::mibgroup::set_serial::increment_set_serial;
use crate::mibgroup::set_serial::serial_after;
use crate::mibgroup::set_serial::SerialState;
use crate::mibgroup::snmp_mib::SnmpCounters;
use crate::mibgroup::snmp_mpd::SnmpMpdStats;
use crate::mibgroup::sysor::SysOrTable;
use crate::mibgroup::usm_stats::UsmStats;
use crate::oid::is_prefix;
use crate::oid::Oid;
use crate::registry::handler_states;
use crate::registry::owner;
use crate::registry::placed;
use crate::registry::read;
use crate::registry::same_roots;
use crate::registry::Registry;
use crate::registry_laws::lemma_owner_same_roots;
use crate::registry_laws::owner_has_longest_root;
use crate::scalar::FnHandler;
use crate::scalar::FnState;
use crate::sorting::into_reversed;
use crate::value::ValueView;

verus! {

/// The last table with the given root.
pub open spec fn table_at<P: MibHandler>(hs: Seq<AnyState<P>>, root: Seq<u32>) -> Option<int>
    decreases hs.len(),
{
    if hs.len() == 0 {
        None
    } else if hs.last() matches AnyState::Table(x) && x.root == root {
        Some(hs.len() - 1)
    } else {
        table_at(hs.drop_last(), root)
    }
}

/// The states with a table in the place of the last one that has its root, or placed among them if
/// there is none.
pub open spec fn with_table<P: MibHandler>(hs: Seq<AnyState<P>>, s: FnState) -> Seq<AnyState<P>> {
    match table_at(hs, s.root) {
        Some(i) => hs.update(i, AnyState::Table(s)),
        None => placed::<AnyHandler<P>>(hs, AnyState::Table(s)),
    }
}

fn find_table<P: MibHandler>(registry: &Registry<AnyHandler<P>>, root: &Oid) -> (r: Option<usize>)
    ensures
        (match r {
            Some(i) => Some(i as int),
            None => None,
        }) == table_at(registry.states(), root@),
        r matches Some(i) ==> i < registry.states().len()
            && AnyHandler::<P>::root_of(registry.states()[i as int]) == root@,
{
    let hs = registry.handlers();
    let ghost all = registry.states();
    let mut n: usize = hs.len();
    assert(all.take(n as int) =~= all);
    while n > 0
        invariant
            n <= hs@.len(),
            all == registry.states(),
            hs@.map_values(|h: AnyHandler<P>| h.state()) == all,
            table_at(all, root@) == table_at(all.take(n as int), root@),
        decreases n,
    {
        let i: usize = n - 1;
        assert(all[i as int] == hs@[i as int].state());
        assert(all.take(n as int).last() == all[i as int]);
        assert(all.take(n as int).drop_last() =~= all.take(i as int));
        let hit = match &hs[i] {
            AnyHandler::Table(h) => h.root().same(root),
            _ => false,
        };
        if hit {
            return Some(i);
        }
        n = i;
    }
    None
}

/// Serve a table in the place of the last one that has its root; register it if there is none.
pub fn update_table<P: MibHandler>(registry: &mut Registry<AnyHandler<P>>, table: FnHandler)
    requires
        old(registry).wf(),
    ensures
        final(registry).wf(),
        final(registry).states() == with_table(old(registry).states(), table.state()),
{
    match find_table(registry, table.root()) {
        Some(i) => {
            registry.replace(i, AnyHandler::Table(table));
        },
        None => {
            registry.register(AnyHandler::Table(table));
        },
    }
}

/// The states with tables in their places, one after the other.
pub open spec fn with_tables<P: MibHandler>(
    hs: Seq<AnyState<P>>,
    tables: Seq<FnState>,
) -> Seq<AnyState<P>>
    decreases tables.len(),
{
    if tables.len() == 0 {
        hs
    } else {
        with_table(with_tables(hs, tables.drop_last()), tables.last())
    }
}

/// Serve tables in the places of those that have their roots, such as those of a configuration that
/// has changed.
pub fn update_tables<P: MibHandler>(registry: &mut Registry<AnyHandler<P>>, tables: Vec<FnHandler>)
    requires
        old(registry).wf(),
    ensures
        final(registry).wf(),
        final(registry).states() == with_tables(
            old(registry).states(),
            handler_states(tables@),
        ),
{
    let ghost before = registry.states();
    let ghost ts = tables@;
    let ghost all = handler_states(ts);
    let mut todo = into_reversed(tables);
    let ghost mut n: int = 0;
    assert(all.take(0) =~= Seq::<FnState>::empty());
    while todo.len() > 0
        invariant
            0 <= n <= ts.len(),
            all == handler_states(ts),
            todo@.len() == ts.len() - n,
            forall|i: int| 0 <= i < todo@.len() ==> #[trigger] todo@[i] == ts[ts.len() - 1 - i],
            registry.wf(),
            registry.states() == with_tables(before, all.take(n)),
        decreases todo@.len(),
    {
        assert(todo@[todo@.len() - 1] == ts[n]);
        if let Some(h) = todo.pop() {
            proof {
                assert(all.take(n + 1).drop_last() =~= all.take(n));
                assert(all.take(n + 1).last() == h.state());
                n = n + 1;
            }
            update_table(registry, h);
        }
    }
    assert(all.take(n) =~= all);
}

proof fn lemma_table_at<P: MibHandler>(hs: Seq<AnyState<P>>, root: Seq<u32>, k: int)
    requires
        0 <= k < hs.len(),
        hs[k] matches AnyState::Table(x) && x.root == root,
        forall|j: int|
            k < j < hs.len() ==> AnyHandler::<P>::root_of(#[trigger] hs[j]) != root,
    ensures
        table_at(hs, root) == Some(k),
    decreases hs.len(),
{
    if k < hs.len() - 1 {
        let t = hs.drop_last();
        assert(AnyHandler::<P>::root_of(hs[hs.len() - 1]) != root);
        assert(t[k] == hs[k]);
        assert forall|j: int| k < j < t.len() implies AnyHandler::<P>::root_of(#[trigger] t[j])
            != root by {
            assert(t[j] == hs[j]);
        }
        lemma_table_at(t, root, k);
    }
}

/// What a table that is served holds now is what GET answers: an OID that a table answered for is
/// answered by the one in its place.
pub proof fn updated_table_answers<P: MibHandler>(
    hs: Seq<AnyState<P>>,
    s: FnState,
    oid: Seq<u32>,
    k: int,
)
    requires
        owner::<AnyHandler<P>>(hs, oid) == Some(k),
        hs[k] matches AnyState::Table(x) && x.root == s.root,
        0 <= k < hs.len(),
        is_prefix(s.root, oid),
    ensures
        read::<AnyHandler<P>>(with_table(hs, s), oid) == match find(s.cells, oid) {
            Some(v) => v,
            None => ValueView::NoSuchInstance,
        },
{
    assert forall|j: int| k < j < hs.len() implies AnyHandler::<P>::root_of(#[trigger] hs[j])
        != s.root by {
        if AnyHandler::<P>::root_of(hs[j]) == s.root {
            owner_has_longest_root::<AnyHandler<P>>(hs, oid, j);
        }
    }
    lemma_table_at(hs, s.root, k);
    let n = with_table(hs, s);
    assert(same_roots::<AnyHandler<P>>(hs, n));
    lemma_owner_same_roots::<AnyHandler<P>>(hs, n, oid, hs.len());
}

/// The last place at which a source of the given kind is served.
pub open spec fn live_at<P: MibHandler>(hs: Seq<AnyState<P>>, kind: LiveKind) -> Option<int>
    decreases hs.len(),
{
    if hs.len() == 0 {
        None
    } else if hs.last() matches AnyState::Live(x) && x.source.kind() == kind {
        Some(hs.len() - 1)
    } else {
        live_at(hs.drop_last(), kind)
    }
}

/// The source that is served at a place.
pub open spec fn live_source<P: MibHandler>(hs: Seq<AnyState<P>>, i: int) -> LiveView {
    (hs[i]->Live_0).source
}

/// The states with another source at a place.
pub open spec fn with_source<P: MibHandler>(
    hs: Seq<AnyState<P>>,
    i: int,
    source: LiveView,
) -> Seq<AnyState<P>> {
    hs.update(i, AnyState::Live(LiveState { source, ..hs[i]->Live_0 }))
}

fn find_live<P: MibHandler>(registry: &Registry<AnyHandler<P>>, kind: LiveKind) -> (r: Option<
    usize,
>)
    ensures
        (match r {
            Some(i) => Some(i as int),
            None => None,
        }) == live_at(registry.states(), kind),
        r matches Some(i) ==> i < registry.states().len() && (registry.states()[i as int]
            matches AnyState::Live(x) && x.source.kind() == kind),
{
    let hs = registry.handlers();
    let ghost all = registry.states();
    let mut n: usize = hs.len();
    assert(all.take(n as int) =~= all);
    while n > 0
        invariant
            n <= hs@.len(),
            all == registry.states(),
            hs@.map_values(|h: AnyHandler<P>| h.state()) == all,
            live_at(all, kind) == live_at(all.take(n as int), kind),
        decreases n,
    {
        let i: usize = n - 1;
        assert(all[i as int] == hs@[i as int].state());
        assert(all.take(n as int).last() == all[i as int]);
        assert(all.take(n as int).drop_last() =~= all.take(i as int));
        let hit = match &hs[i] {
            AnyHandler::Live(h) => h.kind() == kind,
            _ => false,
        };
        if hit {
            return Some(i);
        }
        n = i;
    }
    None
}

/// What a source that is served holds now is what GET answers: an OID that it answered for is
/// answered from what has become of it.
pub proof fn served_source_answers<P: MibHandler>(
    hs: Seq<AnyState<P>>,
    i: int,
    source: LiveView,
    oid: Seq<u32>,
)
    requires
        owner::<AnyHandler<P>>(hs, oid) == Some(i),
        0 <= i < hs.len(),
        hs[i] is Live,
    ensures
        read::<AnyHandler<P>>(with_source(hs, i, source), oid) == match find(
            table_of(source.cells()),
            oid,
        ) {
            Some(v) => v,
            None => ValueView::NoSuchInstance,
        },
{
    let n = with_source(hs, i, source);
    assert(same_roots::<AnyHandler<P>>(hs, n));
    lemma_owner_same_roots::<AnyHandler<P>>(hs, n, oid, hs.len());
}

/// The counters of the protocol that are served, for whoever counts.
pub fn served_counters<P: MibHandler>(registry: &mut Registry<AnyHandler<P>>) -> (r: Option<&mut SnmpCounters>)
    ensures
        match live_at(old(registry).states(), LiveKind::Counters) {
            Some(i) => {
                &&& r is Some
                &&& live_source(old(registry).states(), i) == LiveView::Counters(r->0.counts())
                &&& final(registry).states() == with_source(
                    old(registry).states(),
                    i,
                    LiveView::Counters(final(r->0).counts()),
                )
                &&& old(registry).wf() ==> final(registry).wf()
            },
            None => r is None && *final(registry) == *old(registry),
        },
{
    match find_live(registry, LiveKind::Counters) {
        Some(i) => match registry.handler_mut(i) {
            AnyHandler::Live(h) => h.counters_mut(),
            _ => None,
        },
        None => None,
    }
}

/// The error counters of the security model that are served, for whoever counts.
pub fn served_usm<P: MibHandler>(registry: &mut Registry<AnyHandler<P>>) -> (r: Option<&mut UsmStats>)
    ensures
        match live_at(old(registry).states(), LiveKind::Usm) {
            Some(i) => {
                &&& r is Some
                &&& live_source(old(registry).states(), i) == LiveView::Usm(r->0.counts())
                &&& final(registry).states() == with_source(
                    old(registry).states(),
                    i,
                    LiveView::Usm(final(r->0).counts()),
                )
                &&& old(registry).wf() ==> final(registry).wf()
            },
            None => r is None && *final(registry) == *old(registry),
        },
{
    match find_live(registry, LiveKind::Usm) {
        Some(i) => match registry.handler_mut(i) {
            AnyHandler::Live(h) => h.usm_mut(),
            _ => None,
        },
        None => None,
    }
}

/// The counters of message dispatch that are served, for whoever counts.
pub fn served_mpd<P: MibHandler>(registry: &mut Registry<AnyHandler<P>>) -> (r: Option<&mut SnmpMpdStats>)
    ensures
        match live_at(old(registry).states(), LiveKind::Mpd) {
            Some(i) => {
                &&& r is Some
                &&& live_source(old(registry).states(), i) == LiveView::Mpd(*r->0)
                &&& final(registry).states() == with_source(
                    old(registry).states(),
                    i,
                    LiveView::Mpd(*final(r->0)),
                )
                &&& old(registry).wf() ==> final(registry).wf()
            },
            None => r is None && *final(registry) == *old(registry),
        },
{
    match find_live(registry, LiveKind::Mpd) {
        Some(i) => match registry.handler_mut(i) {
            AnyHandler::Live(h) => h.mpd_mut(),
            _ => None,
        },
        None => None,
    }
}

/// The subsystems that are served, for whoever adds some.
pub fn served_sysor<P: MibHandler>(registry: &mut Registry<AnyHandler<P>>) -> (r: Option<&mut SysOrTable>)
    ensures
        match live_at(old(registry).states(), LiveKind::SysOr) {
            Some(i) => {
                &&& r is Some
                &&& live_source(old(registry).states(), i) == LiveView::SysOr(r->0@)
                &&& final(registry).states() == with_source(
                    old(registry).states(),
                    i,
                    LiveView::SysOr(final(r->0)@),
                )
                &&& old(registry).wf() ==> final(registry).wf()
            },
            None => r is None && *final(registry) == *old(registry),
        },
{
    match find_live(registry, LiveKind::SysOr) {
        Some(i) => match registry.handler_mut(i) {
            AnyHandler::Live(h) => h.sysor_mut(),
            _ => None,
        },
        None => None,
    }
}

/// The states after one more SET has been counted: every serial number has advanced.
pub open spec fn set_counted<P: MibHandler>(hs: Seq<AnyState<P>>) -> Seq<AnyState<P>> {
    hs.map_values(
        |s: AnyState<P>|
            match s {
                AnyState::Serial(x) => AnyState::Serial(
                    SerialState { value: serial_after(x.value) },
                ),
                _ => s,
            },
    )
}

/// Count one more SET in the serial number that is served.
pub fn count_set<P: MibHandler>(registry: &mut Registry<AnyHandler<P>>)
    requires
        old(registry).wf(),
    ensures
        final(registry).wf(),
        final(registry).states() == set_counted(old(registry).states()),
{
    let ghost hs = registry.states();
    let ghost to = set_counted(hs);
    let count: usize = registry.len();
    let mut i: usize = 0;
    while i < count
        invariant
            i <= count == hs.len(),
            to == set_counted(hs),
            registry.wf(),
            registry.states().len() == hs.len(),
            forall|k: int| 0 <= k < i ==> #[trigger] registry.states()[k] == to[k],
            forall|k: int| i <= k < hs.len() ==> #[trigger] registry.states()[k] == hs[k],
        decreases count - i,
    {
        assert(registry.states()[i as int] == hs[i as int]);
        match registry.handler_mut(i) {
            AnyHandler::Serial(h) => increment_set_serial(h.counter_mut()),
            _ => {},
        }
        i += 1;
    }
    assert(registry.states() =~= to);
}

} // verus!
