//! The registry of handlers and the dispatch of requests to them.

use std::sync::Arc;
use vstd::prelude::*;

use crate::cells::CellView;
use crate::handler::MibHandler;
use crate::handler::Reading;
use crate::oid::is_prefix;
use crate::oid::lemma_room_shrinks;
use crate::oid::lex_lt;
use crate::oid::lex_lt_asymmetric;
use crate::oid::lex_lt_total;
use crate::oid::lex_lt_transitive;
use crate::oid::room;
use crate::oid::Oid;
use crate::pdu::ErrorStatus;
use crate::pdu::Pdu;
use crate::pdu::PduType;
use crate::pdu::PduView;
use crate::sorting::into_reversed;
use crate::sorting::reversed;
use crate::vacm::AccessView;
use crate::vacm::Requester;
use crate::vacm::Vacm;
use crate::value::binds;
use crate::value::copy_binds;
use crate::value::Value;
use crate::value::ValueView;
use crate::value::VarBind;
use crate::value::VarBindView;

verus! {

/// A registry of handlers, sorted by the root of their subtrees.
pub struct Registry<H: MibHandler> {
    handlers: Vec<H>,
}

/// Who sends a request, and the access control that applies to it.
#[derive(Debug)]
pub struct SecurityContext {
    /// The security model (1 = v1, 2 = v2c, 3 = USM).
    pub security_model: i32,
    /// The community or user name.
    pub security_name: Vec<u8>,
    /// The security level (0 = noAuthNoPriv, 1 = authNoPriv, 3 = authPriv).
    pub security_level: i32,
    /// The context name.
    pub context: Vec<u8>,
    /// The access control; `None` permits everything.
    pub vacm: Option<Arc<Vacm>>,
}

/// The mathematical content of a [`SecurityContext`].
#[verifier::ext_equal]
pub struct Access {
    pub who: Requester,
    pub vacm: Option<Arc<Vacm>>,
}

impl View for SecurityContext {
    type V = Access;

    open spec fn view(&self) -> Access {
        Access {
            who: Requester {
                model: self.security_model,
                name: self.security_name@,
                level: self.security_level,
                context: self.context@,
            },
            vacm: self.vacm,
        }
    }
}

impl Access {
    /// Whether access to `oid` is permitted.
    pub open spec fn permits(self, view_type: AccessView, oid: Seq<u32>) -> bool {
        match self.vacm {
            Some(vacm) => vacm.grants(view_type, self.who, oid),
            None => true,
        }
    }
}

/// No access control, and nobody in particular.
pub open spec fn open_access() -> Access {
    Access { who: Requester { model: 0, name: seq![], level: 0, context: seq![] }, vacm: None }
}

impl SecurityContext {
    /// A context without access control.
    pub fn permissive() -> (r: SecurityContext)
        ensures
            r@ == open_access(),
    {
        SecurityContext {
            security_model: 0,
            security_name: Vec::new(),
            security_level: 0,
            context: Vec::new(),
            vacm: None,
        }
    }

    /// Whether access to `oid` is permitted.
    pub fn allows(&self, view_type: AccessView, oid: &Oid) -> (r: bool)
        ensures
            r == self@.permits(view_type, oid@),
    {
        match &self.vacm {
            Some(vacm) => vacm.is_view_accessible(
                view_type,
                self.security_model,
                self.security_name.as_slice(),
                self.security_level,
                self.context.as_slice(),
                oid,
            ),
            None => true,
        }
    }
}

/// Whether the roots are in order.
pub open spec fn roots_sorted<H: MibHandler>(hs: Seq<H::State>) -> bool {
    forall|i: int, j: int|
        #![trigger hs[i], hs[j]]
        0 <= i < j < hs.len() ==> !lex_lt(H::root_of(hs[j]), H::root_of(hs[i]))
}

/// Whether two lists of handlers have the same roots.
pub open spec fn same_roots<H: MibHandler>(a: Seq<H::State>, b: Seq<H::State>) -> bool {
    &&& a.len() == b.len()
    &&& forall|i: int|
        #![trigger a[i]]
        #![trigger b[i]]
        0 <= i < a.len() ==> H::root_of(a[i]) == H::root_of(b[i])
}

/// The handler among the first `n` that answers for `oid`: the last of those with the longest
/// root that begins it.
pub open spec fn owner_among<H: MibHandler>(hs: Seq<H::State>, oid: Seq<u32>, n: nat) -> Option<int>
    decreases n,
{
    if n == 0 {
        None
    } else {
        let prev = owner_among::<H>(hs, oid, (n - 1) as nat);
        if is_prefix(H::root_of(hs[n - 1]), oid) && (prev is None || H::root_of(hs[n - 1]).len()
            >= H::root_of(hs[prev->0]).len()) {
            Some(n - 1)
        } else {
            prev
        }
    }
}

/// The handler that answers for `oid`.
pub open spec fn owner<H: MibHandler>(hs: Seq<H::State>, oid: Seq<u32>) -> Option<int> {
    owner_among::<H>(hs, oid, hs.len())
}

/// The state of the handler that answers for `oid`.
pub open spec fn answering<H: MibHandler>(hs: Seq<H::State>, oid: Seq<u32>) -> Option<H::State> {
    match owner::<H>(hs, oid) {
        Some(k) => Some(hs[k]),
        None => None,
    }
}

/// The answer to a GET of `oid`.
pub open spec fn read<H: MibHandler>(hs: Seq<H::State>, oid: Seq<u32>) -> ValueView {
    match owner::<H>(hs, oid) {
        Some(k) => match H::get_of(hs[k], oid) {
            Some(v) => v,
            None => ValueView::NoSuchInstance,
        },
        None => ValueView::NoSuchObject,
    }
}

/// The earlier of two cells, and the second of two with one OID.
pub open spec fn earlier(a: Option<CellView>, b: Option<CellView>) -> Option<CellView> {
    match (a, b) {
        (Some(x), Some(y)) => if lex_lt(x.0, y.0) {
            a
        } else {
            b
        },
        (None, _) => b,
        (_, None) => a,
    }
}

/// The successor of `oid`: the earliest that a handler has, and of those with one OID that of the
/// last handler.
pub open spec fn successor<H: MibHandler>(hs: Seq<H::State>, oid: Seq<u32>) -> Option<CellView>
    decreases hs.len(),
{
    if hs.len() == 0 {
        None
    } else {
        earlier(successor::<H>(hs.drop_last(), oid), H::next_of(hs.last(), oid))
    }
}

/// The answer to a GETNEXT of `oid` without access control.
pub open spec fn next_bind<H: MibHandler>(hs: Seq<H::State>, oid: Seq<u32>) -> VarBindView {
    match successor::<H>(hs, oid) {
        Some(c) => VarBindView { oid: c.0, value: c.1 },
        None => VarBindView { oid, value: ValueView::EndOfMibView },
    }
}

/// The answer to a GETNEXT of `start` whose walk has reached `cursor`: the first successor that
/// may be read, or the end of the view at `start`. The walk ends when it stops advancing.
pub open spec fn next_readable<H: MibHandler>(
    hs: Seq<H::State>,
    sec: Access,
    start: Seq<u32>,
    cursor: Seq<u32>,
) -> VarBindView
    decreases room(cursor),
{
    let nx = next_bind::<H>(hs, cursor);
    let end = VarBindView { oid: start, value: ValueView::EndOfMibView };
    if nx.value == ValueView::EndOfMibView {
        end
    } else if sec.permits(AccessView::Read, nx.oid) {
        nx
    } else if !lex_lt(cursor, nx.oid) || cursor.len() > usize::MAX || nx.oid.len() > usize::MAX {
        end
    } else {
        proof {
            lemma_room_shrinks(cursor, nx.oid);
        }
        next_readable::<H>(hs, sec, start, nx.oid)
    }
}

/// One step of a GETBULK from `oid`.
pub open spec fn bulk_step<H: MibHandler>(
    hs: Seq<H::State>,
    sec: Access,
    oid: Seq<u32>,
) -> VarBindView {
    if sec.vacm is None {
        next_bind::<H>(hs, oid)
    } else {
        next_readable::<H>(hs, sec, oid, oid)
    }
}

/// One repetition of a GETBULK: a step from each cursor.
pub open spec fn bulk_row<H: MibHandler>(
    hs: Seq<H::State>,
    sec: Access,
    cursors: Seq<Seq<u32>>,
) -> Seq<VarBindView> {
    cursors.map_values(|c: Seq<u32>| bulk_step::<H>(hs, sec, c))
}

/// The names of a list of bindings.
pub open spec fn names(vars: Seq<VarBindView>) -> Seq<Seq<u32>> {
    vars.map_values(|b: VarBindView| b.oid)
}

/// Whether every binding is the end of the view.
pub open spec fn all_end(row: Seq<VarBindView>) -> bool {
    forall|i: int| 0 <= i < row.len() ==> (#[trigger] row[i]).value == ValueView::EndOfMibView
}

/// The repetitions of a GETBULK, at most `reps`, up to the first that is all ends.
pub open spec fn bulk_rows<H: MibHandler>(
    hs: Seq<H::State>,
    sec: Access,
    cursors: Seq<Seq<u32>>,
    reps: nat,
) -> Seq<VarBindView>
    decreases reps,
{
    if reps == 0 {
        seq![]
    } else {
        let row = bulk_row::<H>(hs, sec, cursors);
        if all_end(row) {
            row
        } else {
            row + bulk_rows::<H>(hs, sec, names(row), (reps - 1) as nat)
        }
    }
}

/// `n`, or zero if it is negative.
pub open spec fn at_least_zero(n: i64) -> nat {
    if n < 0 {
        0
    } else {
        n as nat
    }
}

/// The number of leading bindings that a GETBULK steps only once.
pub open spec fn once_count(request: PduView) -> nat {
    if at_least_zero(request.error_status) < request.variables.len() {
        at_least_zero(request.error_status)
    } else {
        request.variables.len()
    }
}

/// The bindings of the answer to a GETBULK.
pub open spec fn bulk<H: MibHandler>(
    hs: Seq<H::State>,
    sec: Access,
    request: PduView,
) -> Seq<VarBindView> {
    let asked = names(request.variables);
    let n = once_count(request) as int;
    bulk_row::<H>(hs, sec, asked.take(n)) + bulk_rows::<H>(
        hs,
        sec,
        asked.skip(n),
        at_least_zero(request.error_index),
    )
}

/// The first binding, from `i` on, to which access is not permitted.
pub open spec fn first_denied(
    vars: Seq<VarBindView>,
    sec: Access,
    view_type: AccessView,
    i: int,
) -> Option<int>
    decreases vars.len() - i,
{
    if i < 0 || i >= vars.len() {
        None
    } else if !sec.permits(view_type, vars[i].oid) {
        Some(i)
    } else {
        first_denied(vars, sec, view_type, i + 1)
    }
}

/// A verdict as an error status.
pub open spec fn status_of(r: Result<(), ErrorStatus>) -> ErrorStatus {
    match r {
        Ok(_) => ErrorStatus::NoError,
        Err(s) => s,
    }
}

/// A reservation pass over the bindings from `i` on: the states after it, and the first
/// binding that was refused with the reason.
pub open spec fn reserve<H: MibHandler>(
    hs: Seq<H::State>,
    vars: Seq<VarBindView>,
    i: int,
) -> (Seq<H::State>, Option<(int, ErrorStatus)>)
    decreases vars.len() - i,
{
    if i < 0 || i >= vars.len() {
        (hs, None)
    } else {
        match owner::<H>(hs, vars[i].oid) {
            None => (hs, Some((i, ErrorStatus::NotWritable))),
            Some(k) => {
                let out = H::prepare_of(hs[k], vars[i].oid, vars[i].value);
                let hs2 = hs.update(k, out.0);
                let status = status_of(out.1);
                if status == ErrorStatus::NoError {
                    reserve::<H>(hs2, vars, i + 1)
                } else {
                    (hs2, Some((i, status)))
                }
            },
        }
    }
}

/// What a commit pass leaves: the states, the bindings that were committed, and the first
/// failure.
pub struct Committed<S> {
    pub hs: Seq<S>,
    pub done: Seq<int>,
    pub failed: Option<(int, ErrorStatus)>,
}

/// `failed`, or the failure of binding `i` if there was none before.
pub open spec fn or_failed(
    failed: Option<(int, ErrorStatus)>,
    i: int,
    status: ErrorStatus,
) -> Option<(int, ErrorStatus)> {
    match failed {
        Some(f) => Some(f),
        None => Some((i, status)),
    }
}

/// The commit pass over the first `n` bindings. Every binding is tried, even after a failure.
pub open spec fn commit<H: MibHandler>(
    hs: Seq<H::State>,
    vars: Seq<VarBindView>,
    n: nat,
) -> Committed<H::State>
    decreases n,
{
    if n == 0 {
        Committed { hs, done: seq![], failed: None }
    } else {
        let i = n - 1;
        let before = commit::<H>(hs, vars, i as nat);
        match owner::<H>(before.hs, vars[i].oid) {
            None => Committed {
                failed: or_failed(before.failed, i, ErrorStatus::NotWritable),
                ..before
            },
            Some(k) => {
                let out = H::commit_of(before.hs[k], vars[i].oid, vars[i].value);
                let hs2 = before.hs.update(k, out.0);
                match out.1 {
                    Ok(_) => Committed {
                        hs: hs2,
                        done: before.done.push(i),
                        failed: before.failed,
                    },
                    Err(s) => Committed {
                        hs: hs2,
                        done: before.done,
                        failed: or_failed(before.failed, i, s),
                    },
                }
            },
        }
    }
}

/// The undo pass over the first `n` committed bindings: the states after it, and whether every
/// undo succeeded.
pub open spec fn undo<H: MibHandler>(
    hs: Seq<H::State>,
    vars: Seq<VarBindView>,
    done: Seq<int>,
    n: nat,
) -> (Seq<H::State>, bool)
    decreases n,
{
    if n == 0 {
        (hs, true)
    } else {
        let before = undo::<H>(hs, vars, done, (n - 1) as nat);
        let b = vars[done[n - 1]];
        match owner::<H>(before.0, b.oid) {
            None => before,
            Some(k) => {
                let out = H::undo_of(before.0[k], b.oid, b.value);
                (before.0.update(k, out.0), before.1 && out.1 is Ok)
            },
        }
    }
}

/// A whole SET transaction: the states after it, and the failing binding with the reason.
pub open spec fn transact<H: MibHandler>(hs: Seq<H::State>, vars: Seq<VarBindView>) -> (
    Seq<H::State>,
    Option<(int, ErrorStatus)>,
) {
    let first = reserve::<H>(hs, vars, 0);
    if first.1 is Some {
        first
    } else {
        let second = reserve::<H>(first.0, vars, 0);
        if second.1 is Some {
            second
        } else {
            let third = commit::<H>(second.0, vars, vars.len());
            match third.failed {
                None => (third.hs, None),
                Some((i, status)) => {
                    let fourth = undo::<H>(third.hs, vars, third.done, third.done.len());
                    (
                        fourth.0,
                        Some(
                            (
                                i,
                                if fourth.1 {
                                    status
                                } else {
                                    ErrorStatus::UndoFailed
                                },
                            ),
                        ),
                    )
                },
            }
        }
    }
}

/// A response that reports `status` for binding `i` and echoes the request.
pub open spec fn refusal(request: PduView, i: int, status: ErrorStatus) -> PduView {
    PduView {
        pdu_type: PduType::Response,
        request_id: request.request_id,
        error_status: status.code_of(),
        error_index: (i + 1) as i64,
        variables: request.variables,
    }
}

/// A response without error.
pub open spec fn success(request: PduView, variables: Seq<VarBindView>) -> PduView {
    PduView {
        pdu_type: PduType::Response,
        request_id: request.request_id,
        error_status: 0,
        error_index: 0,
        variables,
    }
}

/// The states after a request and the response to it.
pub open spec fn answer<H: MibHandler>(
    hs: Seq<H::State>,
    request: PduView,
    sec: Access,
) -> (Seq<H::State>, PduView) {
    let vars = request.variables;
    match request.pdu_type {
        PduType::Get => match first_denied(vars, sec, AccessView::Read, 0) {
            Some(i) => (hs, refusal(request, i, ErrorStatus::NoAccess)),
            None => (
                hs,
                success(
                    request,
                    vars.map_values(
                        |b: VarBindView| VarBindView { oid: b.oid, value: read::<H>(hs, b.oid) },
                    ),
                ),
            ),
        },
        PduType::GetNext => (
            hs,
            success(
                request,
                vars.map_values(
                    |b: VarBindView| next_readable::<H>(hs, sec, b.oid, b.oid),
                ),
            ),
        ),
        PduType::GetBulk => (hs, success(request, bulk::<H>(hs, sec, request))),
        PduType::SetRequest => match first_denied(vars, sec, AccessView::Write, 0) {
            Some(i) => (hs, refusal(request, i, ErrorStatus::NoAccess)),
            None => {
                let done = transact::<H>(hs, vars);
                match done.1 {
                    Some((i, status)) => (done.0, refusal(request, i, status)),
                    None => (done.0, success(request, vars)),
                }
            },
        },
        _ => (
            hs,
            PduView {
                error_status: ErrorStatus::GenErr.code_of(),
                ..success(request, seq![])
            },
        ),
    }
}

/// The states with one more, behind those whose root does not come after its own.
pub open spec fn placed<H: MibHandler>(hs: Seq<H::State>, s: H::State) -> Seq<H::State>
    decreases hs.len(),
{
    if hs.len() > 0 && lex_lt(H::root_of(s), H::root_of(hs.last())) {
        placed::<H>(hs.drop_last(), s).push(hs.last())
    } else {
        hs.push(s)
    }
}

/// The states with a list of others placed one after the other.
pub open spec fn placed_all<H: MibHandler>(hs: Seq<H::State>, more: Seq<H::State>) -> Seq<H::State>
    decreases more.len(),
{
    if more.len() == 0 {
        hs
    } else {
        placed::<H>(placed_all::<H>(hs, more.drop_last()), more.last())
    }
}

/// The states of a list of handlers.
pub open spec fn handler_states<H: MibHandler>(v: Seq<H>) -> Seq<H::State> {
    v.map_values(|h: H| h.state())
}

proof fn lemma_placed_at<H: MibHandler>(hs: Seq<H::State>, s: H::State, p: int)
    requires
        0 <= p <= hs.len(),
        p > 0 ==> !lex_lt(H::root_of(s), H::root_of(hs[p - 1])),
        forall|k: int|
            p <= k < hs.len() ==> lex_lt(H::root_of(s), H::root_of(#[trigger] hs[k])),
    ensures
        placed::<H>(hs, s) == hs.insert(p, s),
    decreases hs.len(),
{
    if p < hs.len() {
        assert(hs.last() == hs[hs.len() - 1]);
        assert forall|k: int| p <= k < hs.drop_last().len() implies lex_lt(
            H::root_of(s),
            H::root_of(#[trigger] hs.drop_last()[k]),
        ) by {
            assert(hs.drop_last()[k] == hs[k]);
        }
        lemma_placed_at::<H>(hs.drop_last(), s, p);
        assert(hs.insert(p, s) =~= hs.drop_last().insert(p, s).push(hs.last()));
    } else {
        assert(hs.insert(p, s) =~= hs.push(s));
    }
}

proof fn lemma_same_roots_sorted<H: MibHandler>(a: Seq<H::State>, b: Seq<H::State>)
    requires
        roots_sorted::<H>(a),
        same_roots::<H>(a, b),
    ensures
        roots_sorted::<H>(b),
{
    assert forall|i: int, j: int| #![trigger b[i], b[j]] 0 <= i < j < b.len() implies !lex_lt(
        H::root_of(b[j]),
        H::root_of(b[i]),
    ) by {
        assert(H::root_of(a[i]) == H::root_of(b[i]));
        assert(H::root_of(a[j]) == H::root_of(b[j]));
    }
}

impl<H: MibHandler> Registry<H> {
    /// The roots are in order.
    pub open spec fn wf(self) -> bool {
        roots_sorted::<H>(self.states())
    }

    /// The states of the handlers, in order of their roots.
    pub closed spec fn states(self) -> Seq<H::State> {
        self.handlers@.map_values(|h: H| h.state())
    }

    /// An empty registry.
    pub fn new() -> (r: Registry<H>)
        ensures
            r.wf(),
            r.states() == Seq::<H::State>::empty(),
    {
        let handlers: Vec<H> = Vec::new();
        assert(handlers@.map_values(|h: H| h.state()) =~= Seq::<H::State>::empty());
        Registry { handlers }
    }

    /// Add a handler, behind those whose root does not come after its own.
    pub fn register(&mut self, handler: H)
        requires
            old(self).wf(),
        ensures
            final(self).wf(),
            final(self).states() == placed::<H>(old(self).states(), handler.state()),
    {
        let ghost hs = self.states();
        let mut p: usize = self.handlers.len();
        while p > 0 && handler.root().before(self.handlers[p - 1].root())
            invariant
                p <= self.handlers@.len(),
                hs == self.states(),
                forall|k: int|
                    p <= k < hs.len() ==> lex_lt(
                        H::root_of(handler.state()),
                        H::root_of(#[trigger] hs[k]),
                    ),
            decreases p,
        {
            assert(hs[p - 1] == self.handlers@[p - 1].state());
            p -= 1;
        }
        proof {
            let root = H::root_of(handler.state());
            assert forall|k: int| 0 <= k < p implies !lex_lt(
                root,
                H::root_of(#[trigger] hs[k]),
            ) by {
                assert(hs[p - 1] == self.handlers@[p - 1].state());
                if k < p - 1 && lex_lt(root, H::root_of(hs[k])) {
                    assert(!lex_lt(H::root_of(hs[p - 1]), H::root_of(hs[k])));
                    lex_lt_total(H::root_of(hs[p - 1]), H::root_of(hs[k]));
                    if lex_lt(H::root_of(hs[k]), H::root_of(hs[p - 1])) {
                        lex_lt_transitive(root, H::root_of(hs[k]), H::root_of(hs[p - 1]));
                    }
                }
            }
            let n = hs.insert(p as int, handler.state());
            assert forall|i: int, j: int| #![trigger n[i], n[j]]
                0 <= i < j < n.len() implies !lex_lt(H::root_of(n[j]), H::root_of(n[i])) by {
                let a = if i < p {
                    hs[i]
                } else if i == p {
                    handler.state()
                } else {
                    hs[i - 1]
                };
                let b = if j < p {
                    hs[j]
                } else if j == p {
                    handler.state()
                } else {
                    hs[j - 1]
                };
                assert(n[i] == a && n[j] == b);
                if i == p {
                    lex_lt_asymmetric(root, H::root_of(hs[j - 1]));
                }
            }
            assert(self.handlers@.insert(p as int, handler).map_values(|h: H| h.state()) =~= n);
            lemma_placed_at::<H>(hs, handler.state(), p as int);
        }
        self.handlers.insert(p, handler);
    }

    /// Add handlers, one after the other.
    pub fn register_all(&mut self, handlers: Vec<H>)
        requires
            old(self).wf(),
        ensures
            final(self).wf(),
            final(self).states() == placed_all::<H>(
                old(self).states(),
                handler_states(handlers@),
            ),
    {
        let ghost all = handlers@;
        let ghost before = self.states();
        let mut todo = into_reversed(handlers);
        assert(reversed(todo@) =~= all.skip(0));
        assert(handler_states(all).take(0) =~= Seq::<H::State>::empty());
        let ghost mut n: int = 0;
        while todo.len() > 0
            invariant
                0 <= n <= all.len(),
                reversed(todo@) == all.skip(n),
                self.wf(),
                self.states() == placed_all::<H>(before, handler_states(all).take(n)),
            decreases todo@.len(),
        {
            let ghost was = todo@;
            if let Some(h) = todo.pop() {
                proof {
                    assert(all.skip(n).len() == was.len());
                    assert(reversed(was)[0] == h);
                    assert(all.skip(n)[0] == all[n]);
                    let hs = handler_states(all);
                    assert(hs.take(n + 1).drop_last() =~= hs.take(n));
                    assert(hs.take(n + 1).last() == h.state());
                    assert(reversed(todo@) =~= reversed(was).skip(1));
                    assert(all.skip(n).skip(1) =~= all.skip(n + 1));
                    n = n + 1;
                }
                self.register(h);
            }
        }
        assert(handler_states(all).take(n) =~= handler_states(all));
    }

    /// Put a handler in the place of another with the same root.
    pub fn replace(&mut self, i: usize, handler: H)
        requires
            old(self).wf(),
            i < old(self).states().len(),
            H::root_of(handler.state()) == H::root_of(old(self).states()[i as int]),
        ensures
            final(self).wf(),
            final(self).states() == old(self).states().update(i as int, handler.state()),
    {
        let ghost before = self.states();
        let ghost s = handler.state();
        self.handlers.set(i, handler);
        proof {
            assert(self.states() =~= before.update(i as int, s));
            lemma_same_roots_sorted::<H>(before, self.states());
        }
    }

    /// A handler, for whoever changes what it serves. Its root must stay as it is.
    pub fn handler_mut(&mut self, i: usize) -> (r: &mut H)
        requires
            i < old(self).states().len(),
        ensures
            r.state() == old(self).states()[i as int],
            final(self).states() == old(self).states().update(i as int, final(r).state()),
            old(self).wf() && H::root_of(final(r).state()) == H::root_of(
                old(self).states()[i as int],
            ) ==> final(self).wf(),
    {
        let ghost before = self.handlers@;
        let ghost hs = self.states();
        proof {
            assert forall|s: H::State|
                #![trigger hs.update(i as int, s)]
                roots_sorted::<H>(hs) && H::root_of(s) == H::root_of(
                    hs[i as int],
                ) implies roots_sorted::<H>(hs.update(i as int, s)) by {
                lemma_same_roots_sorted::<H>(hs, hs.update(i as int, s));
            }
            assert forall|h: H|
                #![trigger before.update(i as int, h)]
                before.update(i as int, h).map_values(|x: H| x.state()) == hs.update(
                    i as int,
                    h.state(),
                ) by {
                assert(before.update(i as int, h).map_values(|x: H| x.state()) =~= hs.update(
                    i as int,
                    h.state(),
                ));
            }
        }
        &mut self.handlers[i]
    }

    /// Take a handler out.
    pub fn remove(&mut self, i: usize) -> (r: H)
        requires
            old(self).wf(),
            i < old(self).states().len(),
        ensures
            final(self).wf(),
            final(self).states() == old(self).states().remove(i as int),
            r.state() == old(self).states()[i as int],
    {
        let ghost before = self.states();
        let h = self.handlers.remove(i);
        proof {
            let after = self.states();
            assert(after =~= before.remove(i as int));
            assert forall|a: int, b: int| #![trigger after[a], after[b]]
                0 <= a < b < after.len() implies !lex_lt(
                H::root_of(after[b]),
                H::root_of(after[a]),
            ) by {
                let x = if a < i {
                    a
                } else {
                    a + 1
                };
                let y = if b < i {
                    b
                } else {
                    b + 1
                };
                assert(after[a] == before[x] && after[b] == before[y]);
            }
        }
        h
    }

    /// The number of handlers.
    pub fn len(&self) -> (r: usize)
        ensures
            r == self.states().len(),
    {
        self.handlers.len()
    }

    /// The handlers, in order of their roots.
    pub fn handlers(&self) -> (r: &Vec<H>)
        ensures
            r@.map_values(|h: H| h.state()) == self.states(),
    {
        &self.handlers
    }

    /// The handlers by themselves, in order of their roots.
    pub fn into_handlers(self) -> (r: Vec<H>)
        ensures
            handler_states(r@) == self.states(),
    {
        self.handlers
    }

    /// The place of the handler that answers for `oid`.
    pub fn owner_of(&self, oid: &Oid) -> (r: Option<usize>)
        ensures
            r is Some <==> owner::<H>(self.states(), oid@) is Some,
            r matches Some(k) ==> k < self.states().len() && owner::<H>(self.states(), oid@)
                == Some(k as int),
    {
        let mut best: Option<usize> = None;
        let mut i: usize = 0;
        let ghost hs = self.states();
        while i < self.handlers.len()
            invariant
                i <= self.handlers@.len(),
                hs == self.states(),
                best is None <==> owner_among::<H>(hs, oid@, i as nat) is None,
                best matches Some(b) ==> b < i && owner_among::<H>(hs, oid@, i as nat) == Some(
                    b as int,
                ),
            decreases self.handlers@.len() - i,
        {
            assert(hs[i as int] == self.handlers@[i as int].state());
            if self.handlers[i].root().is_prefix_of(oid) {
                let better = match best {
                    Some(b) => {
                        assert(hs[b as int] == self.handlers@[b as int].state());
                        self.handlers[i].root().len() >= self.handlers[b].root().len()
                    },
                    None => true,
                };
                if better {
                    best = Some(i);
                }
            }
            i += 1;
        }
        best
    }

    /// The answer to a GET without access control.
    pub fn get(&self, oid: &Oid) -> (r: Value)
        ensures
            r@ == read::<H>(self.states(), oid@),
    {
        match self.owner_of(oid) {
            Some(k) => {
                assert(self.states()[k as int] == self.handlers@[k as int].state());
                match self.handlers[k].get(oid) {
                    Some(v) => v,
                    None => Value::NoSuchInstance,
                }
            },
            None => Value::NoSuchObject,
        }
    }

    /// The answer to a GETNEXT without access control.
    fn do_get_next(&self, oid: &Oid) -> (r: VarBind)
        ensures
            r@ == next_bind::<H>(self.states(), oid@),
    {
        let ghost hs = self.states();
        let mut best: Option<Reading> = None;
        let mut i: usize = 0;
        assert(hs.take(0) =~= Seq::<H::State>::empty());
        while i < self.handlers.len()
            invariant
                i <= self.handlers@.len(),
                hs == self.states(),
                successor::<H>(hs.take(i as int), oid@) == match best {
                    Some(x) => Some((x.oid@, x.value@)),
                    None => None,
                },
            decreases self.handlers@.len() - i,
        {
            assert(hs[i as int] == self.handlers@[i as int].state());
            assert(hs.take(i + 1).drop_last() =~= hs.take(i as int));
            assert(hs.take(i + 1).last() == hs[i as int]);
            if let Some(next) = self.handlers[i].get_next(oid) {
                let keep = match &best {
                    Some(b) => b.oid.before(&next.oid),
                    None => false,
                };
                if !keep {
                    best = Some(next);
                }
            }
            i += 1;
        }
        assert(hs.take(i as int) =~= hs);
        match best {
            Some(reading) => VarBind::new(reading.oid, reading.value),
            None => VarBind::new(oid.clone(), Value::EndOfMibView),
        }
    }

    /// The answer to a GETNEXT: the first successor that may be read.
    fn do_get_next_accessible(&self, oid: &Oid, sec: &SecurityContext) -> (r: VarBind)
        ensures
            r@ == next_readable::<H>(self.states(), sec@, oid@, oid@),
    {
        let mut cursor = oid.clone();
        loop
            invariant
                next_readable::<H>(self.states(), sec@, oid@, oid@) == next_readable::<H>(
                    self.states(),
                    sec@,
                    oid@,
                    cursor@,
                ),
            decreases room(cursor@),
        {
            let next = self.do_get_next(&cursor);
            let n: usize = cursor.len();
            let m: usize = next.oid.len();
            if next.value.is_end() {
                return VarBind::new(oid.clone(), Value::EndOfMibView);
            }
            if sec.allows(AccessView::Read, &next.oid) {
                return next;
            }
            if !cursor.before(&next.oid) {
                return VarBind::new(oid.clone(), Value::EndOfMibView);
            }
            proof {
                lemma_room_shrinks(cursor@, next.oid@);
            }
            cursor = next.oid;
        }
    }

    /// One step of a GETBULK.
    fn do_bulk_step(&self, oid: &Oid, sec: &SecurityContext) -> (r: VarBind)
        ensures
            r@ == bulk_step::<H>(self.states(), sec@, oid@),
    {
        if sec.vacm.is_none() {
            self.do_get_next(oid)
        } else {
            self.do_get_next_accessible(oid, sec)
        }
    }

    /// Answer a request without access control.
    pub fn process(&mut self, request: &Pdu) -> (r: Pdu)
        ensures
            (final(self).states(), r@) == answer::<H>(
                old(self).states(),
                request@,
                open_access(),
            ),
            old(self).wf() ==> final(self).wf(),
    {
        let sec = SecurityContext::permissive();
        self.process_with_access(request, &sec)
    }

    /// Answer a request, each binding subject to access control.
    pub fn process_with_access(&mut self, request: &Pdu, sec: &SecurityContext) -> (r: Pdu)
        ensures
            (final(self).states(), r@) == answer::<H>(old(self).states(), request@, sec@),
            old(self).wf() ==> final(self).wf(),
    {
        let mut response = Pdu::new(PduType::Response, request.request_id);
        match request.pdu_type {
            PduType::Get => match self.denied(request, sec, AccessView::Read) {
                Some(i) => Registry::<H>::refuse(request, i, ErrorStatus::NoAccess),
                None => {
                    response.variables = self.read_all(request);
                    response
                },
            },
            PduType::GetNext => {
                response.variables = self.next_all(request, sec);
                response
            },
            PduType::GetBulk => {
                response.variables = self.process_bulk(request, sec);
                response
            },
            PduType::SetRequest => match self.denied(request, sec, AccessView::Write) {
                Some(i) => Registry::<H>::refuse(request, i, ErrorStatus::NoAccess),
                None => self.process_set(request),
            },
            _ => {
                response.error_status = ErrorStatus::GenErr.code();
                assert(binds(response.variables@) =~= seq![]);
                response
            },
        }
    }

    /// The response that reports an error and echoes the request.
    fn refuse(request: &Pdu, i: usize, status: ErrorStatus) -> (r: Pdu)
        requires
            i < request.variables@.len(),
        ensures
            r@ == refusal(request@, i as int, status),
    {
        let count: usize = request.variables.len();
        assert(i < count);
        Pdu {
            pdu_type: PduType::Response,
            request_id: request.request_id,
            error_status: status.code(),
            error_index: (i + 1) as i64,
            variables: copy_binds(request.variables.as_slice()),
        }
    }

    /// The first binding to which access is not permitted.
    fn denied(&self, request: &Pdu, sec: &SecurityContext, view_type: AccessView) -> (r: Option<
        usize,
    >)
        ensures
            r is Some <==> first_denied(request@.variables, sec@, view_type, 0) is Some,
            r matches Some(i) ==> i < request.variables@.len() && first_denied(
                request@.variables,
                sec@,
                view_type,
                0,
            ) == Some(i as int),
    {
        let ghost vars = request@.variables;
        let mut i: usize = 0;
        while i < request.variables.len()
            invariant
                i <= request.variables@.len(),
                vars == request@.variables,
                first_denied(vars, sec@, view_type, 0) == first_denied(
                    vars,
                    sec@,
                    view_type,
                    i as int,
                ),
            decreases request.variables@.len() - i,
        {
            assert(vars[i as int] == request.variables@[i as int]@);
            if !sec.allows(view_type, &request.variables[i].oid) {
                return Some(i);
            }
            i += 1;
        }
        None
    }

    fn read_all(&self, request: &Pdu) -> (r: Vec<VarBind>)
        ensures
            binds(r@) == request@.variables.map_values(
                |b: VarBindView|
                    VarBindView { oid: b.oid, value: read::<H>(self.states(), b.oid) },
            ),
    {
        let ghost f = |b: VarBindView|
            VarBindView { oid: b.oid, value: read::<H>(self.states(), b.oid) };
        let ghost vars = request@.variables;
        let mut out: Vec<VarBind> = Vec::new();
        let mut i: usize = 0;
        while i < request.variables.len()
            invariant
                i <= request.variables@.len(),
                vars == request@.variables,
                f == (|b: VarBindView|
                    VarBindView { oid: b.oid, value: read::<H>(self.states(), b.oid) }),
                binds(out@) == vars.take(i as int).map_values(f),
            decreases request.variables@.len() - i,
        {
            let ghost before = out@;
            let oid = &request.variables[i].oid;
            let b = VarBind::new(oid.clone(), self.get(oid));
            out.push(b);
            proof {
                assert(vars[i as int] == request.variables@[i as int]@);
                assert(b@ == f(vars[i as int]));
                assert(binds(out@) =~= binds(before).push(b@));
                assert(vars.take(i + 1).map_values(f) =~= vars.take(i as int).map_values(f).push(
                    f(vars[i as int]),
                ));
            }
            i += 1;
        }
        assert(vars.take(i as int) =~= vars);
        out
    }

    fn next_all(&self, request: &Pdu, sec: &SecurityContext) -> (r: Vec<VarBind>)
        ensures
            binds(r@) == request@.variables.map_values(
                |b: VarBindView| next_readable::<H>(self.states(), sec@, b.oid, b.oid),
            ),
    {
        let ghost f = |b: VarBindView| next_readable::<H>(self.states(), sec@, b.oid, b.oid);
        let ghost vars = request@.variables;
        let mut out: Vec<VarBind> = Vec::new();
        let mut i: usize = 0;
        while i < request.variables.len()
            invariant
                i <= request.variables@.len(),
                vars == request@.variables,
                f == (|b: VarBindView| next_readable::<H>(self.states(), sec@, b.oid, b.oid)),
                binds(out@) == vars.take(i as int).map_values(f),
            decreases request.variables@.len() - i,
        {
            let ghost before = out@;
            let b = self.do_get_next_accessible(&request.variables[i].oid, sec);
            out.push(b);
            proof {
                assert(vars[i as int] == request.variables@[i as int]@);
                assert(b@ == f(vars[i as int]));
                assert(binds(out@) =~= binds(before).push(b@));
                assert(vars.take(i + 1).map_values(f) =~= vars.take(i as int).map_values(f).push(
                    f(vars[i as int]),
                ));
            }
            i += 1;
        }
        assert(vars.take(i as int) =~= vars);
        out
    }

    /// A step from each of the bindings `vars[from..to]`.
    fn bulk_steps(&self, vars: &[VarBind], from: usize, to: usize, sec: &SecurityContext) -> (r: Vec<
        VarBind,
    >)
        requires
            from <= to <= vars@.len(),
        ensures
            binds(r@) == bulk_row::<H>(
                self.states(),
                sec@,
                names(binds(vars@)).subrange(from as int, to as int),
            ),
    {
        let ghost asked = names(binds(vars@));
        let ghost hs = self.states();
        let mut out: Vec<VarBind> = Vec::new();
        let mut i: usize = from;
        while i < to
            invariant
                from <= i <= to <= vars@.len(),
                asked == names(binds(vars@)),
                hs == self.states(),
                binds(out@) == bulk_row::<H>(hs, sec@, asked.subrange(from as int, i as int)),
            decreases to - i,
        {
            let ghost before = out@;
            let b = self.do_bulk_step(&vars[i].oid, sec);
            out.push(b);
            proof {
                assert(asked[i as int] == vars@[i as int].oid@);
                assert(binds(out@) =~= binds(before).push(b@));
                assert(bulk_row::<H>(hs, sec@, asked.subrange(from as int, i + 1)) =~= bulk_row::<
                    H,
                >(hs, sec@, asked.subrange(from as int, i as int)).push(b@));
            }
            i += 1;
        }
        out
    }

    /// GETBULK: the leading bindings are stepped once, the others repeatedly.
    fn process_bulk(&self, request: &Pdu, sec: &SecurityContext) -> (r: Vec<VarBind>)
        ensures
            binds(r@) == bulk::<H>(self.states(), sec@, request@),
    {
        let ghost hs = self.states();
        let ghost asked = names(request@.variables);
        let wanted: i64 = request.non_repeaters();
        let count: usize = request.variables.len();
        let n: usize = if wanted < 0 {
            0
        } else if (wanted as u64) < (count as u64) {
            wanted as usize
        } else {
            count
        };
        assert(n == once_count(request@));
        let mut out = self.bulk_steps(request.variables.as_slice(), 0, n, sec);
        let mut row: Vec<VarBind> = Vec::new();
        let mut k: usize = n;
        while k < count
            invariant
                n <= k <= count == request.variables@.len(),
                asked == names(request@.variables),
                names(binds(row@)) =~= asked.subrange(n as int, k as int),
            decreases count - k,
        {
            let ghost before = row@;
            row.push(VarBind::null(request.variables[k].oid.clone()));
            assert(names(binds(row@)) =~= names(binds(before)).push(asked[k as int]));
            k += 1;
        }
        let ghost head = binds(out@);
        assert(asked.subrange(0, n as int) =~= asked.take(n as int));
        assert(asked.subrange(n as int, count as int) =~= asked.skip(n as int));
        let ghost total = bulk_rows::<H>(
            hs,
            sec@,
            asked.skip(n as int),
            at_least_zero(request@.error_index),
        );
        let reps: i64 = request.max_repetitions();
        let mut left: i64 = if reps < 0 {
            0
        } else {
            reps
        };
        assert(binds(out@) + bulk_rows::<H>(hs, sec@, names(binds(row@)), left as nat) =~= head
            + total);
        while left > 0
            invariant_except_break
                hs == self.states(),
                left >= 0,
                binds(out@) + bulk_rows::<H>(hs, sec@, names(binds(row@)), left as nat) == head
                    + total,
            ensures
                binds(out@) == head + total,
            decreases left,
        {
            let next = self.bulk_steps(row.as_slice(), 0, row.len(), sec);
            let ghost cursors = names(binds(row@));
            assert(cursors.subrange(0, row@.len() as int) =~= cursors);
            let mut ended = true;
            let mut j: usize = 0;
            while j < next.len()
                invariant
                    j <= next@.len(),
                    ended <==> forall|q: int|
                        0 <= q < j ==> (#[trigger] binds(next@)[q]).value
                            == ValueView::EndOfMibView,
                decreases next@.len() - j,
            {
                assert(binds(next@)[j as int] == next@[j as int]@);
                if !next[j].value.is_end() {
                    ended = false;
                }
                j += 1;
            }
            let ghost before = binds(out@);
            let ghost line = binds(next@);
            assert(ended <==> all_end(line));
            let mut more = copy_binds(next.as_slice());
            let ghost out0 = out@;
            let ghost more0 = more@;
            out.append(&mut more);
            assert(binds(out@) =~= binds(out0) + binds(more0));
            row = next;
            if ended {
                assert(before + line =~= head + total);
                break;
            }
            left -= 1;
            proof {
                let rest = bulk_rows::<H>(hs, sec@, names(line), left as nat);
                assert(before + (line + rest) =~= (before + line) + rest);
            }
        }
        out
    }

    /// Run the reservation phase over every binding.
    fn reserve_all(&mut self, request: &Pdu) -> (r: Option<(usize, ErrorStatus)>)
        ensures
            same_roots::<H>(old(self).states(), final(self).states()),
            final(self).states() == reserve::<H>(old(self).states(), request@.variables, 0).0,
            r is Some <==> reserve::<H>(old(self).states(), request@.variables, 0).1 is Some,
            r matches Some((i, s)) ==> i < request.variables@.len() && reserve::<H>(
                old(self).states(),
                request@.variables,
                0,
            ).1 == Some((i as int, s)),
    {
        let ghost vars = request@.variables;
        let ghost hs0 = self.states();
        let mut i: usize = 0;
        while i < request.variables.len()
            invariant
                i <= request.variables@.len(),
                vars == request@.variables,
                hs0 == old(self).states(),
                same_roots::<H>(hs0, self.states()),
                reserve::<H>(hs0, vars, 0) == reserve::<H>(self.states(), vars, i as int),
            decreases request.variables@.len() - i,
        {
            let ghost hs = self.states();
            let vb = &request.variables[i];
            assert(vars[i as int] == vb@);
            match self.owner_of(&vb.oid) {
                Some(k) => {
                    let ghost before = self.handlers@;
                    assert(hs[k as int] == self.handlers@[k as int].state());
                    let verdict = self.handlers[k].prepare_set(&vb.oid, &vb.value);
                    assert(self.states() =~= hs.update(k as int, self.handlers@[k as int].state()));
                    match verdict {
                        Ok(()) => {},
                        Err(s) => {
                            if !s.is_ok() {
                                return Some((i, s));
                            }
                        },
                    }
                },
                None => {
                    return Some((i, ErrorStatus::NotWritable));
                },
            }
            i += 1;
        }
        None
    }

    /// SET: reserve twice, then commit, and undo what was committed if a commit fails.
    fn process_set(&mut self, request: &Pdu) -> (r: Pdu)
        ensures
            same_roots::<H>(old(self).states(), final(self).states()),
            ({
                let done = transact::<H>(old(self).states(), request@.variables);
                &&& final(self).states() == done.0
                &&& r@ == match done.1 {
                    Some((i, status)) => refusal(request@, i, status),
                    None => success(request@, request@.variables),
                }
            }),
    {
        let ghost vars = request@.variables;
        match self.reserve_all(request) {
            Some((i, s)) => {
                return Registry::<H>::refuse(request, i, s);
            },
            None => {},
        }
        match self.reserve_all(request) {
            Some((i, s)) => {
                return Registry::<H>::refuse(request, i, s);
            },
            None => {},
        }
        let ghost hs0 = self.states();
        let mut done: Vec<usize> = Vec::new();
        let mut failed: Option<(usize, ErrorStatus)> = None;
        let mut i: usize = 0;
        assert(done@.map_values(|x: usize| x as int) =~= Seq::<int>::empty());
        while i < request.variables.len()
            invariant
                i <= request.variables@.len(),
                vars == request@.variables,
                same_roots::<H>(hs0, self.states()),
                self.states() == commit::<H>(hs0, vars, i as nat).hs,
                done@.map_values(|x: usize| x as int) == commit::<H>(hs0, vars, i as nat).done,
                forall|q: int| 0 <= q < done@.len() ==> #[trigger] done@[q] < i,
                failed is None <==> commit::<H>(hs0, vars, i as nat).failed is None,
                failed matches Some((f, s)) ==> f < i && commit::<H>(hs0, vars, i as nat).failed
                    == Some((f as int, s)),
            decreases request.variables@.len() - i,
        {
            let ghost hs = self.states();
            let vb = &request.variables[i];
            assert(vars[i as int] == vb@);
            let verdict = match self.owner_of(&vb.oid) {
                Some(k) => {
                    assert(hs[k as int] == self.handlers@[k as int].state());
                    let v = self.handlers[k].commit_set(&vb.oid, &vb.value);
                    assert(self.states() =~= hs.update(k as int, self.handlers@[k as int].state()));
                    v
                },
                None => Err(ErrorStatus::NotWritable),
            };
            match verdict {
                Ok(()) => {
                    let ghost before = done@.map_values(|x: usize| x as int);
                    done.push(i);
                    assert(done@.map_values(|x: usize| x as int) =~= before.push(i as int));
                },
                Err(s) => {
                    if failed.is_none() {
                        failed = Some((i, s));
                    }
                },
            }
            i += 1;
        }
        match failed {
            Some((f, status)) => {
                let ghost marks = done@.map_values(|x: usize| x as int);
                let ghost hs1 = self.states();
                let mut clean = true;
                let mut j: usize = 0;
                while j < done.len()
                    invariant
                        j <= done@.len(),
                        vars == request@.variables,
                        same_roots::<H>(hs1, self.states()),
                        marks == done@.map_values(|x: usize| x as int),
                        forall|q: int|
                            0 <= q < done@.len() ==> #[trigger] done@[q]
                                < request.variables@.len(),
                        (self.states(), clean) == undo::<H>(hs1, vars, marks, j as nat),
                    decreases done@.len() - j,
                {
                    let ghost hs = self.states();
                    let vb = &request.variables[done[j]];
                    assert(marks[j as int] == done@[j as int]);
                    assert(vars[marks[j as int]] == vb@);
                    match self.owner_of(&vb.oid) {
                        Some(k) => {
                            assert(hs[k as int] == self.handlers@[k as int].state());
                            let v = self.handlers[k].undo_set(&vb.oid, &vb.value);
                            assert(self.states() =~= hs.update(
                                k as int,
                                self.handlers@[k as int].state(),
                            ));
                            match v {
                                Ok(()) => {},
                                Err(_) => {
                                    clean = false;
                                },
                            }
                        },
                        None => {},
                    }
                    j += 1;
                }
                let reported = if clean {
                    status
                } else {
                    ErrorStatus::UndoFailed
                };
                Registry::<H>::refuse(request, f, reported)
            },
            None => {
                let mut response = Pdu::new(PduType::Response, request.request_id);
                response.variables = copy_binds(request.variables.as_slice());
                response
            },
        }
    }
}

} // verus!
