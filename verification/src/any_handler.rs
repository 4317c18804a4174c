//! One type for all handlers of an agent.

use vstd::prelude::*;

use crate::handler::MibHandler;
use crate::handler::Reading;
use crate::mibgroup::host::HrSWRunHandler;
use crate::mibgroup::host::SwRunState;
use crate::mibgroup::live::LiveHandler;
use crate::mibgroup::live::LiveState;
use crate::mibgroup::netsnmp_agent::CacheView;
use crate::mibgroup::netsnmp_agent::NsCacheHandler;
use crate::mibgroup::set_serial::SerialState;
use crate::mibgroup::set_serial::SetSerialNoHandler;
use crate::oid::Oid;
use crate::pdu::ErrorStatus;
use crate::registry::handler_states;
use crate::scalar::FnHandler;
use crate::scalar::FnState;
use crate::scalar::MapHandler;
use crate::scalar::MapState;
use crate::scalar::ScalarHandler;
use crate::scalar::ScalarState;
use crate::sorting::into_reversed;
use crate::value::Value;
use crate::value::ValueView;

verus! {

/// A handler of the library, or one that serves its subtree from outside, such as with a command
/// or another agent.
#[derive(Debug)]
pub enum AnyHandler<P: MibHandler> {
    /// A scalar.
    Scalar(ScalarHandler),
    /// A map of instances.
    Instances(MapHandler),
    /// A table.
    Table(FnHandler),
    /// Counters or rows that change.
    Live(LiveHandler),
    /// The serial number of SET requests.
    Serial(SetSerialNoHandler),
    /// The caches.
    Cache(NsCacheHandler),
    /// The running software.
    SwRun(HrSWRunHandler),
    /// A handler from outside.
    Outside(P),
}

/// The state of an [`AnyHandler`].
pub enum AnyState<P: MibHandler> {
    /// A scalar.
    Scalar(ScalarState),
    /// A map of instances.
    Instances(MapState),
    /// A table.
    Table(FnState),
    /// Counters or rows that change.
    Live(LiveState),
    /// The serial number of SET requests.
    Serial(SerialState),
    /// The caches.
    Cache(CacheView),
    /// The running software.
    SwRun(SwRunState),
    /// A handler from outside.
    Outside(P::State),
}

impl<P: MibHandler> MibHandler for AnyHandler<P> {
    type State = AnyState<P>;

    open spec fn state(&self) -> AnyState<P> {
        match *self {
            AnyHandler::Scalar(h) => AnyState::Scalar(h.state()),
            AnyHandler::Instances(h) => AnyState::Instances(h.state()),
            AnyHandler::Table(h) => AnyState::Table(h.state()),
            AnyHandler::Live(h) => AnyState::Live(h.state()),
            AnyHandler::Serial(h) => AnyState::Serial(h.state()),
            AnyHandler::Cache(h) => AnyState::Cache(h.state()),
            AnyHandler::SwRun(h) => AnyState::SwRun(h.state()),
            AnyHandler::Outside(h) => AnyState::Outside(h.state()),
        }
    }

    open spec fn root_of(s: AnyState<P>) -> Seq<u32> {
        match s {
            AnyState::Scalar(x) => ScalarHandler::root_of(x),
            AnyState::Instances(x) => MapHandler::root_of(x),
            AnyState::Table(x) => FnHandler::root_of(x),
            AnyState::Live(x) => LiveHandler::root_of(x),
            AnyState::Serial(x) => SetSerialNoHandler::root_of(x),
            AnyState::Cache(x) => NsCacheHandler::root_of(x),
            AnyState::SwRun(x) => HrSWRunHandler::root_of(x),
            AnyState::Outside(x) => P::root_of(x),
        }
    }

    open spec fn get_of(s: AnyState<P>, oid: Seq<u32>) -> Option<ValueView> {
        match s {
            AnyState::Scalar(x) => ScalarHandler::get_of(x, oid),
            AnyState::Instances(x) => MapHandler::get_of(x, oid),
            AnyState::Table(x) => FnHandler::get_of(x, oid),
            AnyState::Live(x) => LiveHandler::get_of(x, oid),
            AnyState::Serial(x) => SetSerialNoHandler::get_of(x, oid),
            AnyState::Cache(x) => NsCacheHandler::get_of(x, oid),
            AnyState::SwRun(x) => HrSWRunHandler::get_of(x, oid),
            AnyState::Outside(x) => P::get_of(x, oid),
        }
    }

    open spec fn next_of(s: AnyState<P>, oid: Seq<u32>) -> Option<(Seq<u32>, ValueView)> {
        match s {
            AnyState::Scalar(x) => ScalarHandler::next_of(x, oid),
            AnyState::Instances(x) => MapHandler::next_of(x, oid),
            AnyState::Table(x) => FnHandler::next_of(x, oid),
            AnyState::Live(x) => LiveHandler::next_of(x, oid),
            AnyState::Serial(x) => SetSerialNoHandler::next_of(x, oid),
            AnyState::Cache(x) => NsCacheHandler::next_of(x, oid),
            AnyState::SwRun(x) => HrSWRunHandler::next_of(x, oid),
            AnyState::Outside(x) => P::next_of(x, oid),
        }
    }

    open spec fn prepare_of(s: AnyState<P>, oid: Seq<u32>, value: ValueView) -> (
        AnyState<P>,
        Result<(), ErrorStatus>,
    ) {
        match s {
            AnyState::Scalar(x) => {
                let (y, r) = ScalarHandler::prepare_of(x, oid, value);
                (AnyState::Scalar(y), r)
            },
            AnyState::Instances(x) => {
                let (y, r) = MapHandler::prepare_of(x, oid, value);
                (AnyState::Instances(y), r)
            },
            AnyState::Table(x) => {
                let (y, r) = FnHandler::prepare_of(x, oid, value);
                (AnyState::Table(y), r)
            },
            AnyState::Live(x) => {
                let (y, r) = LiveHandler::prepare_of(x, oid, value);
                (AnyState::Live(y), r)
            },
            AnyState::Serial(x) => {
                let (y, r) = SetSerialNoHandler::prepare_of(x, oid, value);
                (AnyState::Serial(y), r)
            },
            AnyState::Cache(x) => {
                let (y, r) = NsCacheHandler::prepare_of(x, oid, value);
                (AnyState::Cache(y), r)
            },
            AnyState::SwRun(x) => {
                let (y, r) = HrSWRunHandler::prepare_of(x, oid, value);
                (AnyState::SwRun(y), r)
            },
            AnyState::Outside(x) => {
                let (y, r) = P::prepare_of(x, oid, value);
                (AnyState::Outside(y), r)
            },
        }
    }

    open spec fn commit_of(s: AnyState<P>, oid: Seq<u32>, value: ValueView) -> (
        AnyState<P>,
        Result<(), ErrorStatus>,
    ) {
        match s {
            AnyState::Scalar(x) => {
                let (y, r) = ScalarHandler::commit_of(x, oid, value);
                (AnyState::Scalar(y), r)
            },
            AnyState::Instances(x) => {
                let (y, r) = MapHandler::commit_of(x, oid, value);
                (AnyState::Instances(y), r)
            },
            AnyState::Table(x) => {
                let (y, r) = FnHandler::commit_of(x, oid, value);
                (AnyState::Table(y), r)
            },
            AnyState::Live(x) => {
                let (y, r) = LiveHandler::commit_of(x, oid, value);
                (AnyState::Live(y), r)
            },
            AnyState::Serial(x) => {
                let (y, r) = SetSerialNoHandler::commit_of(x, oid, value);
                (AnyState::Serial(y), r)
            },
            AnyState::Cache(x) => {
                let (y, r) = NsCacheHandler::commit_of(x, oid, value);
                (AnyState::Cache(y), r)
            },
            AnyState::SwRun(x) => {
                let (y, r) = HrSWRunHandler::commit_of(x, oid, value);
                (AnyState::SwRun(y), r)
            },
            AnyState::Outside(x) => {
                let (y, r) = P::commit_of(x, oid, value);
                (AnyState::Outside(y), r)
            },
        }
    }

    open spec fn undo_of(s: AnyState<P>, oid: Seq<u32>, value: ValueView) -> (
        AnyState<P>,
        Result<(), ErrorStatus>,
    ) {
        match s {
            AnyState::Scalar(x) => {
                let (y, r) = ScalarHandler::undo_of(x, oid, value);
                (AnyState::Scalar(y), r)
            },
            AnyState::Instances(x) => {
                let (y, r) = MapHandler::undo_of(x, oid, value);
                (AnyState::Instances(y), r)
            },
            AnyState::Table(x) => {
                let (y, r) = FnHandler::undo_of(x, oid, value);
                (AnyState::Table(y), r)
            },
            AnyState::Live(x) => {
                let (y, r) = LiveHandler::undo_of(x, oid, value);
                (AnyState::Live(y), r)
            },
            AnyState::Serial(x) => {
                let (y, r) = SetSerialNoHandler::undo_of(x, oid, value);
                (AnyState::Serial(y), r)
            },
            AnyState::Cache(x) => {
                let (y, r) = NsCacheHandler::undo_of(x, oid, value);
                (AnyState::Cache(y), r)
            },
            AnyState::SwRun(x) => {
                let (y, r) = HrSWRunHandler::undo_of(x, oid, value);
                (AnyState::SwRun(y), r)
            },
            AnyState::Outside(x) => {
                let (y, r) = P::undo_of(x, oid, value);
                (AnyState::Outside(y), r)
            },
        }
    }

    fn root(&self) -> (r: &Oid) {
        match self {
            AnyHandler::Scalar(h) => MibHandler::root(h),
            AnyHandler::Instances(h) => h.root(),
            AnyHandler::Table(h) => h.root(),
            AnyHandler::Live(h) => h.root(),
            AnyHandler::Serial(h) => h.root(),
            AnyHandler::Cache(h) => h.root(),
            AnyHandler::SwRun(h) => h.root(),
            AnyHandler::Outside(h) => h.root(),
        }
    }

    fn get(&self, oid: &Oid) -> (r: Option<Value>) {
        match self {
            AnyHandler::Scalar(h) => h.get(oid),
            AnyHandler::Instances(h) => h.get(oid),
            AnyHandler::Table(h) => h.get(oid),
            AnyHandler::Live(h) => h.get(oid),
            AnyHandler::Serial(h) => h.get(oid),
            AnyHandler::Cache(h) => h.get(oid),
            AnyHandler::SwRun(h) => h.get(oid),
            AnyHandler::Outside(h) => h.get(oid),
        }
    }

    fn get_next(&self, oid: &Oid) -> (r: Option<Reading>) {
        match self {
            AnyHandler::Scalar(h) => h.get_next(oid),
            AnyHandler::Instances(h) => h.get_next(oid),
            AnyHandler::Table(h) => h.get_next(oid),
            AnyHandler::Live(h) => h.get_next(oid),
            AnyHandler::Serial(h) => h.get_next(oid),
            AnyHandler::Cache(h) => h.get_next(oid),
            AnyHandler::SwRun(h) => h.get_next(oid),
            AnyHandler::Outside(h) => h.get_next(oid),
        }
    }

    fn prepare_set(&mut self, oid: &Oid, value: &Value) -> (r: Result<(), ErrorStatus>) {
        match self {
            AnyHandler::Scalar(h) => h.prepare_set(oid, value),
            AnyHandler::Instances(h) => h.prepare_set(oid, value),
            AnyHandler::Table(h) => h.prepare_set(oid, value),
            AnyHandler::Live(h) => h.prepare_set(oid, value),
            AnyHandler::Serial(h) => h.prepare_set(oid, value),
            AnyHandler::Cache(h) => h.prepare_set(oid, value),
            AnyHandler::SwRun(h) => h.prepare_set(oid, value),
            AnyHandler::Outside(h) => h.prepare_set(oid, value),
        }
    }

    fn commit_set(&mut self, oid: &Oid, value: &Value) -> (r: Result<(), ErrorStatus>) {
        match self {
            AnyHandler::Scalar(h) => h.commit_set(oid, value),
            AnyHandler::Instances(h) => h.commit_set(oid, value),
            AnyHandler::Table(h) => h.commit_set(oid, value),
            AnyHandler::Live(h) => h.commit_set(oid, value),
            AnyHandler::Serial(h) => h.commit_set(oid, value),
            AnyHandler::Cache(h) => h.commit_set(oid, value),
            AnyHandler::SwRun(h) => h.commit_set(oid, value),
            AnyHandler::Outside(h) => h.commit_set(oid, value),
        }
    }

    fn undo_set(&mut self, oid: &Oid, value: &Value) -> (r: Result<(), ErrorStatus>) {
        match self {
            AnyHandler::Scalar(h) => h.undo_set(oid, value),
            AnyHandler::Instances(h) => h.undo_set(oid, value),
            AnyHandler::Table(h) => h.undo_set(oid, value),
            AnyHandler::Live(h) => h.undo_set(oid, value),
            AnyHandler::Serial(h) => h.undo_set(oid, value),
            AnyHandler::Cache(h) => h.undo_set(oid, value),
            AnyHandler::SwRun(h) => h.undo_set(oid, value),
            AnyHandler::Outside(h) => h.undo_set(oid, value),
        }
    }
}

/// The states of tables.
pub open spec fn table_states<P: MibHandler>(s: Seq<FnState>) -> Seq<AnyState<P>> {
    s.map_values(|x: FnState| AnyState::Table(x))
}

/// Append tables to a list of handlers.
pub fn push_tables<P: MibHandler>(out: &mut Vec<AnyHandler<P>>, tables: Vec<FnHandler>)
    ensures
        handler_states(final(out)@) == handler_states(old(out)@) + table_states(
            handler_states(tables@),
        ),
{
    let ghost start = handler_states(out@);
    let ghost all = handler_states(tables@);
    let ghost ts = tables@;
    let mut todo = into_reversed(tables);
    let ghost mut n: int = 0;
    assert(start =~= start + table_states(all.take(0)));
    while todo.len() > 0
        invariant
            0 <= n <= ts.len(),
            all == handler_states(ts),
            todo@.len() == ts.len() - n,
            forall|i: int| 0 <= i < todo@.len() ==> #[trigger] todo@[i] == ts[ts.len() - 1 - i],
            handler_states(out@) == start + table_states::<P>(all.take(n)),
        decreases todo@.len(),
    {
        assert(todo@[todo@.len() - 1] == ts[n]);
        if let Some(h) = todo.pop() {
            let ghost before = out@;
            out.push(AnyHandler::Table(h));
            proof {
                assert(all[n] == h.state());
                assert(handler_states(out@) =~= handler_states(before).push(
                    AnyState::Table(h.state()),
                ));
                assert(table_states::<P>(all.take(n + 1)) =~= table_states::<P>(
                    all.take(n),
                ).push(AnyState::Table(all[n])));
                assert(handler_states(out@) =~= start + table_states::<P>(all.take(n + 1)));
                n = n + 1;
            }
        }
    }
    assert(all.take(n) =~= all);
}

} // verus!
