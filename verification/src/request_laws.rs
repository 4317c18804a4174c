//! What the answers to requests hold, in terms of what the handlers serve.

use vstd::prelude::*;

use crate::any_handler::AnyHandler;
use crate::any_handler::AnyState;
use crate::handler::MibHandler;
use crate::oid::is_prefix;
use crate::oid::lemma_room_shrinks;
use crate::oid::lex_lt;
use crate::oid::lex_lt_total;
use crate::oid::lex_lt_transitive;
use crate::oid::room;
use crate::pdu::ErrorStatus;
use crate::pdu::PduType;
use crate::pdu::PduView;
use crate::registry::all_end;
use crate::registry::answer;
use crate::registry::bulk_row;
use crate::registry::bulk_rows;
use crate::registry::bulk_step;
use crate::registry::commit;
use crate::registry::first_denied;
use crate::registry::names;
use crate::registry::next_readable;
use crate::registry::open_access;
use crate::registry::owner;
use crate::registry::reserve;
use crate::registry::same_roots;
use crate::registry::successor;
use crate::registry::transact;
use crate::registry::undo;
use crate::registry::Access;
use crate::registry_laws::getnext_answers_an_instance;
use crate::registry_laws::getnext_is_least;
use crate::registry_laws::lemma_owner_among;
use crate::registry_laws::lemma_owner_same_roots;
use crate::registry_laws::owner_has_longest_root;
use crate::registry_laws::walks_its_instances;
use crate::transaction_laws::is_settable;
use crate::transaction_laws::is_stored;
use crate::transaction_laws::owners_are;
use crate::transaction_laws::set_is_all_or_nothing;
use crate::transaction_laws::set_values_read_back;
use crate::transaction_laws::settable_handlers_settle;
use crate::transaction_laws::settles;
use crate::transaction_laws::stored_values_are_remembered;
use crate::vacm::AccessView;
use crate::value::ValueView;
use crate::value::VarBindView;

verus! {

/// A request for one OID.
pub open spec fn request_for(pdu_type: PduType, oid: Seq<u32>) -> PduView {
    PduView {
        pdu_type,
        request_id: 0,
        error_status: 0,
        error_index: 0,
        variables: seq![VarBindView { oid, value: ValueView::Null }],
    }
}

/// Whether a requester may read every OID that a request names.
pub open spec fn may_read_all(request: PduView, sec: Access) -> bool {
    forall|i: int|
        0 <= i < request.variables.len() ==> sec.permits(
            AccessView::Read,
            (#[trigger] request.variables[i]).oid,
        )
}

/// Whether a response answers a request without error, and names what the request names.
pub open spec fn is_success_for(response: PduView, request: PduView) -> bool {
    &&& response.pdu_type == PduType::Response
    &&& response.request_id == request.request_id
    &&& response.error_status == 0
    &&& response.error_index == 0
}

/// A GET answers each OID, in the order of the request, with what the handler with the longest root
/// that begins it has (and of several with that root the last), and with noSuchInstance if that
/// has nothing.
pub proof fn get_asks_the_longest_root<H: MibHandler>(
    hs: Seq<H::State>,
    request: PduView,
    sec: Access,
    i: int,
    k: int,
)
    requires
        request.pdu_type == PduType::Get,
        may_read_all(request, sec),
        0 <= i < request.variables.len(),
        0 <= k < hs.len(),
        is_prefix(H::root_of(hs[k]), request.variables[i].oid),
        forall|j: int|
            0 <= j < hs.len() && is_prefix(
                H::root_of(#[trigger] hs[j]),
                request.variables[i].oid,
            ) ==> {
                &&& H::root_of(hs[j]).len() <= H::root_of(hs[k]).len()
                &&& H::root_of(hs[j]).len() == H::root_of(hs[k]).len() ==> j <= k
            },
    ensures
        ({
            let response = answer::<H>(hs, request, sec).1;
            let oid = request.variables[i].oid;
            &&& is_success_for(response, request)
            &&& response.variables.len() == request.variables.len()
            &&& response.variables[i].oid == oid
            &&& H::get_of(hs[k], oid) is Some ==> response.variables[i].value == H::get_of(
                hs[k],
                oid,
            )->0
            &&& H::get_of(hs[k], oid) is None ==> response.variables[i].value
                == ValueView::NoSuchInstance
        }),
{
    lemma_none_denied(request.variables, sec, 0);
    let oid = request.variables[i].oid;
    owner_has_longest_root::<H>(hs, oid, k);
    lemma_owner_among::<H>(hs, oid, hs.len());
}

/// A GET of an OID that no root begins is answered noSuchObject.
pub proof fn get_outside_all_roots<H: MibHandler>(
    hs: Seq<H::State>,
    request: PduView,
    sec: Access,
    i: int,
)
    requires
        request.pdu_type == PduType::Get,
        may_read_all(request, sec),
        0 <= i < request.variables.len(),
        forall|j: int|
            0 <= j < hs.len() ==> !is_prefix(
                H::root_of(#[trigger] hs[j]),
                request.variables[i].oid,
            ),
    ensures
        ({
            let response = answer::<H>(hs, request, sec).1;
            &&& is_success_for(response, request)
            &&& response.variables[i].oid == request.variables[i].oid
            &&& response.variables[i].value == ValueView::NoSuchObject
        }),
{
    lemma_none_denied(request.variables, sec, 0);
    lemma_owner_among::<H>(hs, request.variables[i].oid, hs.len());
}

proof fn lemma_none_denied(vars: Seq<VarBindView>, sec: Access, i: int)
    requires
        forall|k: int|
            0 <= k < vars.len() ==> sec.permits(AccessView::Read, (#[trigger] vars[k]).oid),
        0 <= i,
    ensures
        first_denied(vars, sec, AccessView::Read, i) is None,
    decreases vars.len() - i,
{
    if i < vars.len() {
        assert(sec.permits(AccessView::Read, vars[i].oid));
        lemma_none_denied(vars, sec, i + 1);
    }
}

/// What a request other than GET, GETNEXT, GETBULK and SET is answered: genErr(5), without
/// variables.
pub proof fn other_requests_are_refused<H: MibHandler>(
    hs: Seq<H::State>,
    request: PduView,
    sec: Access,
)
    requires
        request.pdu_type != PduType::Get,
        request.pdu_type != PduType::GetNext,
        request.pdu_type != PduType::GetBulk,
        request.pdu_type != PduType::SetRequest,
    ensures
        ({
            let (after, response) = answer::<H>(hs, request, sec);
            &&& after == hs
            &&& response.pdu_type == PduType::Response
            &&& response.request_id == request.request_id
            &&& response.error_status == 5
            &&& response.variables.len() == 0
        }),
{
}

/// Whether handlers walk instances that can be told from the end of the view.
pub open spec fn serve_plain_instances<H: MibHandler>(hs: Seq<H::State>) -> bool {
    &&& forall|i: int| 0 <= i < hs.len() ==> walks_its_instances::<H>(#[trigger] hs[i])
    &&& forall|i: int, oid: Seq<u32>|
        #![trigger H::get_of(hs[i], oid)]
        0 <= i < hs.len() && H::get_of(hs[i], oid) is Some ==> oid.len() <= usize::MAX
            && H::get_of(hs[i], oid)->0 != ValueView::EndOfMibView
}

/// Whether one of the handlers has an instance.
pub open spec fn is_instance<H: MibHandler>(hs: Seq<H::State>, oid: Seq<u32>, v: ValueView) -> bool {
    exists|j: int| 0 <= j < hs.len() && H::get_of(#[trigger] hs[j], oid) == Some(v)
}

/// A GETNEXT answers each OID, in the order of the request, with the least instance behind it that
/// may be read, and with the end of the view at that OID exactly if there is none. `p` is any
/// instance.
pub proof fn getnext_answers_the_least_readable<H: MibHandler>(
    hs: Seq<H::State>,
    request: PduView,
    sec: Access,
    i: int,
    p: Seq<u32>,
    v: ValueView,
)
    requires
        request.pdu_type == PduType::GetNext,
        serve_plain_instances::<H>(hs),
        0 <= i < request.variables.len(),
        request.variables[i].oid.len() <= usize::MAX,
    ensures
        ({
            let (after, response) = answer::<H>(hs, request, sec);
            let oid = request.variables[i].oid;
            let r = response.variables[i];
            &&& after == hs
            &&& is_success_for(response, request)
            &&& response.variables.len() == request.variables.len()
            &&& r.value == ValueView::EndOfMibView ==> r.oid == oid
            &&& r.value != ValueView::EndOfMibView ==> lex_lt(oid, r.oid) && sec.permits(
                AccessView::Read,
                r.oid,
            ) && is_instance::<H>(hs, r.oid, r.value)
            &&& is_instance::<H>(hs, p, v) && lex_lt(oid, p) && sec.permits(AccessView::Read, p)
                ==> r.value != ValueView::EndOfMibView && !lex_lt(p, r.oid)
        }),
{
    let oid = request.variables[i].oid;
    lemma_least_readable::<H>(hs, sec, oid, oid, p, v);
}

proof fn lemma_least_readable<H: MibHandler>(
    hs: Seq<H::State>,
    sec: Access,
    start: Seq<u32>,
    cursor: Seq<u32>,
    p: Seq<u32>,
    v: ValueView,
)
    requires
        serve_plain_instances::<H>(hs),
        cursor.len() <= usize::MAX,
    ensures
        ({
            let r = next_readable::<H>(hs, sec, start, cursor);
            &&& r.value == ValueView::EndOfMibView ==> r.oid == start
            &&& r.value != ValueView::EndOfMibView ==> lex_lt(cursor, r.oid) && sec.permits(
                AccessView::Read,
                r.oid,
            ) && is_instance::<H>(hs, r.oid, r.value)
            &&& is_instance::<H>(hs, p, v) && lex_lt(cursor, p) && sec.permits(AccessView::Read, p)
                ==> r.value != ValueView::EndOfMibView && !lex_lt(p, r.oid)
        }),
    decreases room(cursor),
{
    let wanted = is_instance::<H>(hs, p, v) && lex_lt(cursor, p) && sec.permits(
        AccessView::Read,
        p,
    );
    if wanted {
        let j = choose|j: int| 0 <= j < hs.len() && H::get_of(#[trigger] hs[j], p) == Some(v);
        getnext_is_least::<H>(hs, cursor, j, p);
    }
    if successor::<H>(hs, cursor) is Some {
        getnext_answers_an_instance::<H>(hs, cursor);
        let c = successor::<H>(hs, cursor)->0;
        let m = choose|m: int|
            0 <= m < hs.len() && H::get_of(#[trigger] hs[m], c.0) == Some(c.1);
        assert(is_instance::<H>(hs, c.0, c.1));
        if !sec.permits(AccessView::Read, c.0) {
            lemma_room_shrinks(cursor, c.0);
            if wanted {
                assert(p != c.0);
                lex_lt_total(p, c.0);
            }
            lemma_least_readable::<H>(hs, sec, start, c.0, p, v);
            let r = next_readable::<H>(hs, sec, start, c.0);
            if r.value != ValueView::EndOfMibView {
                lex_lt_transitive(cursor, c.0, r.oid);
            }
        }
    }
}

/// Whether a binding is the step of a walk from an OID: what GETNEXT answers there, and without
/// access control what the handlers have there.
pub open spec fn is_step<H: MibHandler>(
    hs: Seq<H::State>,
    sec: Access,
    from: Seq<u32>,
    b: VarBindView,
) -> bool {
    if sec.vacm is Some {
        b == answer::<H>(hs, request_for(PduType::GetNext, from), sec).1.variables[0]
    } else {
        match successor::<H>(hs, from) {
            Some(c) => b.oid == c.0 && b.value == c.1,
            None => b.oid == from && b.value == ValueView::EndOfMibView,
        }
    }
}

/// The lesser of two numbers, and at least zero.
pub open spec fn bounded(n: int, most: int) -> int {
    if n <= 0 {
        0
    } else if n < most {
        n
    } else {
        most
    }
}

/// A GETBULK with `n` non-repeaters and `r` other names answers first the step from each of the
/// non-repeaters, once, then the step from each of the other names, then the step from each of
/// those answers, and so on: the binding `r` places before another is what it steps from. It
/// answers whole repetitions, at most as many as the request allows, and fewer only behind one
/// that is all ends. Non-repeaters and repetitions stand in the error fields of the request.
pub proof fn getbulk_steps_and_repeats<H: MibHandler>(
    hs: Seq<H::State>,
    request: PduView,
    sec: Access,
    i: int,
)
    requires
        request.pdu_type == PduType::GetBulk,
    ensures
        ({
            let (after, response) = answer::<H>(hs, request, sec);
            let got = response.variables;
            let asked = request.variables;
            let n = bounded(request.error_status as int, asked.len() as int);
            let r = asked.len() - n;
            let reps = if request.error_index < 0 {
                0int
            } else {
                request.error_index as int
            };
            &&& after == hs
            &&& is_success_for(response, request)
            &&& n <= got.len() <= n + r * reps
            &&& r > 0 ==> (got.len() - n) % r == 0
            &&& 0 <= i < n ==> is_step::<H>(hs, sec, asked[i].oid, got[i])
            &&& n <= i < n + r && i < got.len() ==> is_step::<H>(hs, sec, asked[i].oid, got[i])
            &&& n + r <= i < got.len() ==> is_step::<H>(hs, sec, got[i - r].oid, got[i])
            &&& got.len() < n + r * reps && got.len() - r <= i < got.len() ==> got[i].value
                == ValueView::EndOfMibView
            &&& r > 0 && reps > 0 ==> got.len() >= n + r
        }),
{
    let asked = names(request.variables);
    let vars = request.variables;
    let n = bounded(request.error_status as int, vars.len() as int);
    let r = vars.len() - n;
    let reps = if request.error_index < 0 {
        0nat
    } else {
        request.error_index as nat
    };
    let head = bulk_row::<H>(hs, sec, asked.take(n));
    let tail = bulk_rows::<H>(hs, sec, asked.skip(n), reps);
    let got = answer::<H>(hs, request, sec).1.variables;
    assert(got == head + tail);
    assert(head.len() == n);
    if 0 <= i < n {
        assert(got[i] == head[i]);
        assert(asked.take(n)[i] == vars[i].oid);
        lemma_step::<H>(hs, sec, vars[i].oid);
    } else if n <= i < got.len() {
        lemma_rows_step::<H>(hs, sec, asked.skip(n), reps, i - n);
        assert(got[i] == tail[i - n]);
        if i < n + r {
            assert(asked.skip(n)[i - n] == vars[i].oid);
        } else {
            assert(got[i - r] == tail[i - n - r]);
        }
    }
    lemma_rows_len::<H>(hs, sec, asked.skip(n), reps);
    if got.len() < n + r * reps && got.len() - r <= i < got.len() {
        assert(tail.len() < r * reps);
        assert(i >= n);
        assert(tail[i - n].value == ValueView::EndOfMibView);
    }
}

proof fn lemma_step<H: MibHandler>(hs: Seq<H::State>, sec: Access, from: Seq<u32>)
    ensures
        is_step::<H>(hs, sec, from, bulk_step::<H>(hs, sec, from)),
{
    let q = request_for(PduType::GetNext, from);
    assert(q.variables[0].oid == from);
}

proof fn lemma_rows_step<H: MibHandler>(
    hs: Seq<H::State>,
    sec: Access,
    cursors: Seq<Seq<u32>>,
    reps: nat,
    x: int,
)
    requires
        0 <= x < bulk_rows::<H>(hs, sec, cursors, reps).len(),
    ensures
        ({
            let got = bulk_rows::<H>(hs, sec, cursors, reps);
            is_step::<H>(
                hs,
                sec,
                if x < cursors.len() {
                    cursors[x]
                } else {
                    got[x - cursors.len()].oid
                },
                got[x],
            )
        }),
    decreases reps,
{
    let row = bulk_row::<H>(hs, sec, cursors);
    let got = bulk_rows::<H>(hs, sec, cursors, reps);
    let r = cursors.len() as int;
    if x < r {
        assert(got[x] == row[x]);
        lemma_step::<H>(hs, sec, cursors[x]);
    } else {
        let more = bulk_rows::<H>(hs, sec, names(row), (reps - 1) as nat);
        assert(got == row + more);
        assert(names(row).len() == r);
        lemma_rows_step::<H>(hs, sec, names(row), (reps - 1) as nat, x - r);
        assert(got[x] == more[x - r]);
        if x - r < r {
            assert(names(row)[x - r] == row[x - r].oid);
            assert(got[x - r] == row[x - r]);
        } else {
            assert(got[x - r] == more[x - r - r]);
        }
    }
}

proof fn lemma_rows_len<H: MibHandler>(
    hs: Seq<H::State>,
    sec: Access,
    cursors: Seq<Seq<u32>>,
    reps: nat,
)
    ensures
        ({
            let got = bulk_rows::<H>(hs, sec, cursors, reps);
            let r = cursors.len() as int;
            &&& got.len() <= r * reps
            &&& r > 0 ==> got.len() as int % r == 0
            &&& reps > 0 ==> got.len() >= r
            &&& got.len() < r * reps ==> forall|x: int|
                got.len() - r <= x < got.len() ==> (#[trigger] got[x]).value
                    == ValueView::EndOfMibView
        }),
    decreases reps,
{
    let got = bulk_rows::<H>(hs, sec, cursors, reps);
    let r = cursors.len() as int;
    if reps > 0 {
        let row = bulk_row::<H>(hs, sec, cursors);
        assert(row.len() == r);
        let k = (reps - 1) as int;
        assert(r * reps == r * k + r) by (nonlinear_arith)
            requires
                reps == k + 1,
        ;
        assert(r * k >= 0) by (nonlinear_arith)
            requires
                r >= 0,
                k >= 0,
        ;
        if all_end(row) {
            assert(got == row);
            if r > 0 {
                assert(r % r == 0);
            }
            assert forall|x: int| got.len() - r <= x < got.len() implies (#[trigger] got[x]).value
                == ValueView::EndOfMibView by {
                assert(row[x].value == ValueView::EndOfMibView);
            }
        } else {
            let more = bulk_rows::<H>(hs, sec, names(row), (reps - 1) as nat);
            lemma_rows_len::<H>(hs, sec, names(row), (reps - 1) as nat);
            assert(names(row).len() == r);
            assert(got == row + more);
            if r > 0 {
                vstd::arithmetic::div_mod::lemma_mod_add_multiples_vanish(more.len() as int, r);
            }
            if got.len() < r * reps {
                assert(more.len() < r * k);
                assert(k > 0) by {
                    if k == 0 {
                        assert(r * k == 0);
                    }
                }
                assert forall|x: int| got.len() - r <= x < got.len() implies (
                #[trigger] got[x]).value == ValueView::EndOfMibView by {
                    assert(x >= r);
                    assert(got[x] == more[x - r]);
                }
            }
        }
    } else {
        assert(r * 0 == 0) by (nonlinear_arith);
        if r > 0 {
            assert(0int % r == 0);
        }
    }
}

/// After a SET that is answered without error a GET of each OID answers the last value that was
/// given for it, where scalars and maps serve what is set.
pub proof fn get_after_set<P: MibHandler>(
    hs: Seq<AnyState<P>>,
    request: PduView,
    i: int,
)
    requires
        request.pdu_type == PduType::SetRequest,
        owners_are::<AnyHandler<P>>(hs, request.variables, |s: AnyState<P>| is_stored(s)),
        0 <= i < request.variables.len(),
        forall|j: int|
            i < j < request.variables.len() ==> (#[trigger] request.variables[j]).oid
                != request.variables[i].oid,
    ensures
        ({
            let (after, response) = answer::<AnyHandler<P>>(hs, request, open_access());
            let b = request.variables[i];
            let got = answer::<AnyHandler<P>>(
                after,
                request_for(PduType::Get, b.oid),
                open_access(),
            ).1;
            response.error_status == 0 ==> {
                &&& is_success_for(response, request)
                &&& response.variables == request.variables
                &&& got.variables[0].oid == b.oid
                &&& got.variables[0].value == b.value
            }
        }),
{
    let b = request.variables[i];
    let vars = request.variables;
    stored_values_are_remembered::<P>();
    lemma_all_open(vars, AccessView::Write, 0);
    let q = request_for(PduType::Get, b.oid);
    lemma_all_open(q.variables, AccessView::Read, 0);
    assert(q.variables[0].oid == b.oid);
    if answer::<AnyHandler<P>>(hs, request, open_access()).1.error_status == 0 {
        lemma_status_of_refusal::<P>(hs, vars);
        set_values_read_back::<AnyHandler<P>>(hs, vars, |s: AnyState<P>| is_stored(s), i);
    }
}

proof fn lemma_all_open(vars: Seq<VarBindView>, kind: AccessView, i: int)
    requires
        0 <= i,
    ensures
        first_denied(vars, open_access(), kind, i) is None,
    decreases vars.len() - i,
{
    if i < vars.len() {
        lemma_all_open(vars, kind, i + 1);
    }
}

proof fn lemma_status_of_refusal<P: MibHandler>(hs: Seq<AnyState<P>>, vars: Seq<VarBindView>)
    requires
        owners_are::<AnyHandler<P>>(hs, vars, |s: AnyState<P>| is_stored(s)),
    ensures
        transact::<AnyHandler<P>>(hs, vars).1 matches Some(f) ==> f.1.code_of() != 0 && 0 <= f.0
            < vars.len(),
{
    stored_values_are_remembered::<P>();
    let good = |s: AnyState<P>| is_stored(s);
    set_is_all_or_nothing::<AnyHandler<P>>(hs, vars, good);
    lemma_first_refusal::<AnyHandler<P>>(hs, vars, good, 0);
}

/// What the reservation of a binding says: notWritable where no handler answers for it, else what
/// the handler says.
pub open spec fn verdict<H: MibHandler>(hs: Seq<H::State>, b: VarBindView) -> ErrorStatus {
    match owner::<H>(hs, b.oid) {
        None => ErrorStatus::NotWritable,
        Some(k) => match H::prepare_of(hs[k], b.oid, b.value).1 {
            Ok(_) => ErrorStatus::NoError,
            Err(e) => e,
        },
    }
}

proof fn lemma_first_refusal<H: MibHandler>(
    hs: Seq<H::State>,
    vars: Seq<VarBindView>,
    good: spec_fn(H::State) -> bool,
    i: int,
)
    requires
        settles::<H>(good),
        owners_are::<H>(hs, vars, good),
        0 <= i,
    ensures
        match reserve::<H>(hs, vars, i).1 {
            Some(f) => {
                &&& i <= f.0 < vars.len()
                &&& f.1 == verdict::<H>(hs, vars[f.0])
                &&& f.1 != ErrorStatus::NoError
                &&& forall|j: int|
                    i <= j < f.0 ==> verdict::<H>(hs, #[trigger] vars[j]) == ErrorStatus::NoError
            },
            None => forall|j: int|
                i <= j < vars.len() ==> verdict::<H>(hs, #[trigger] vars[j])
                    == ErrorStatus::NoError,
        },
    decreases vars.len() - i,
{
    if i < vars.len() {
        let b = vars[i];
        lemma_owner_among::<H>(hs, b.oid, hs.len());
        match owner::<H>(hs, b.oid) {
            None => {},
            Some(k) => {
                assert(good(hs[k]));
                let out = H::prepare_of(hs[k], b.oid, b.value);
                assert(hs.update(k, out.0) =~= hs);
                lemma_first_refusal::<H>(hs, vars, good, i + 1);
            },
        }
    }
}

/// A SET of what the library's handlers serve succeeds exactly if every binding is accepted, and
/// else reports the first binding that is not, with the reason, and changes nothing.
pub proof fn set_reports_the_first_refusal<P: MibHandler>(
    hs: Seq<AnyState<P>>,
    request: PduView,
    i: int,
)
    requires
        request.pdu_type == PduType::SetRequest,
        owners_are::<AnyHandler<P>>(hs, request.variables, |s: AnyState<P>| is_settable(s)),
        0 <= i < request.variables.len() < i64::MAX,
        verdict::<AnyHandler<P>>(hs, request.variables[i]) != ErrorStatus::NoError,
        forall|j: int|
            0 <= j < i ==> verdict::<AnyHandler<P>>(hs, #[trigger] request.variables[j])
                == ErrorStatus::NoError,
    ensures
        ({
            let (after, response) = answer::<AnyHandler<P>>(hs, request, open_access());
            &&& after == hs
            &&& response.pdu_type == PduType::Response
            &&& response.request_id == request.request_id
            &&& response.error_status == verdict::<AnyHandler<P>>(
                hs,
                request.variables[i],
            ).code_of()
            &&& response.error_index == i + 1
            &&& response.variables == request.variables
        }),
{
    settable_handlers_settle::<P>();
    let good = |s: AnyState<P>| is_settable(s);
    let vars = request.variables;
    lemma_all_open(vars, AccessView::Write, 0);
    set_is_all_or_nothing::<AnyHandler<P>>(hs, vars, good);
    lemma_first_refusal::<AnyHandler<P>>(hs, vars, good, 0);
}

/// A SET of what the library's handlers serve, in which every binding is accepted, succeeds.
pub proof fn set_succeeds_if_all_accept<P: MibHandler>(hs: Seq<AnyState<P>>, request: PduView)
    requires
        request.pdu_type == PduType::SetRequest,
        owners_are::<AnyHandler<P>>(hs, request.variables, |s: AnyState<P>| is_settable(s)),
        forall|j: int|
            0 <= j < request.variables.len() ==> verdict::<AnyHandler<P>>(
                hs,
                #[trigger] request.variables[j],
            ) == ErrorStatus::NoError,
    ensures
        ({
            let response = answer::<AnyHandler<P>>(hs, request, open_access()).1;
            is_success_for(response, request) && response.variables == request.variables
        }),
{
    settable_handlers_settle::<P>();
    let good = |s: AnyState<P>| is_settable(s);
    let vars = request.variables;
    lemma_all_open(vars, AccessView::Write, 0);
    set_is_all_or_nothing::<AnyHandler<P>>(hs, vars, good);
    lemma_first_refusal::<AnyHandler<P>>(hs, vars, good, 0);
}

/// Whether a handler takes back what it has committed, and stays as it is where it does not commit.
pub open spec fn can_undo<H: MibHandler>(s: H::State, b: VarBindView) -> bool {
    let done = H::commit_of(s, b.oid, b.value);
    &&& H::prepare_of(s, b.oid, b.value) == (s, Ok::<(), ErrorStatus>(()))
    &&& H::root_of(done.0) == H::root_of(s)
    &&& done.1 is Ok ==> H::undo_of(done.0, b.oid, b.value) == (s, Ok::<(), ErrorStatus>(()))
    &&& done.1 is Err ==> done.0 == s
}

/// Whether each binding goes to a handler of its own, which can undo.
pub open spec fn apart_and_undoable<H: MibHandler>(
    hs: Seq<H::State>,
    vars: Seq<VarBindView>,
) -> bool {
    &&& forall|i: int|
        0 <= i < vars.len() ==> {
            &&& owner::<H>(hs, (#[trigger] vars[i]).oid) matches Some(k)
            &&& can_undo::<H>(hs[k], vars[i])
        }
    &&& forall|i: int, j: int|
        #![trigger vars[i], vars[j]]
        0 <= i < j < vars.len() ==> owner::<H>(hs, vars[i].oid) != owner::<H>(hs, vars[j].oid)
}

/// Whether the commit of binding `i` succeeds.
pub open spec fn commits<H: MibHandler>(hs: Seq<H::State>, b: VarBindView) -> bool {
    H::commit_of(hs[owner::<H>(hs, b.oid)->0], b.oid, b.value).1 is Ok
}

proof fn lemma_reserve_accepts<H: MibHandler>(hs: Seq<H::State>, vars: Seq<VarBindView>, i: int)
    requires
        apart_and_undoable::<H>(hs, vars),
        0 <= i,
    ensures
        reserve::<H>(hs, vars, i).0 == hs,
        reserve::<H>(hs, vars, i).1 is None,
    decreases vars.len() - i,
{
    if i < vars.len() {
        let b = vars[i];
        lemma_owner_among::<H>(hs, b.oid, hs.len());
        let k = owner::<H>(hs, b.oid)->0;
        assert(can_undo::<H>(hs[k], b));
        assert(hs.update(k, H::prepare_of(hs[k], b.oid, b.value).0) =~= hs);
        lemma_reserve_accepts::<H>(hs, vars, i + 1);
    }
}

proof fn lemma_commit_pass<H: MibHandler>(hs: Seq<H::State>, vars: Seq<VarBindView>, n: nat)
    requires
        apart_and_undoable::<H>(hs, vars),
        n <= vars.len(),
    ensures
        ({
            let c = commit::<H>(hs, vars, n);
            &&& same_roots::<H>(hs, c.hs)
            &&& forall|j: int|
                0 <= j < n ==> c.hs[owner::<H>(hs, (#[trigger] vars[j]).oid)->0] == H::commit_of(
                    hs[owner::<H>(hs, vars[j].oid)->0],
                    vars[j].oid,
                    vars[j].value,
                ).0
            &&& forall|m: int|
                0 <= m < hs.len() && (forall|j: int|
                    0 <= j < n ==> owner::<H>(hs, (#[trigger] vars[j]).oid) != Some(m))
                    ==> #[trigger] c.hs[m] == hs[m]
            &&& forall|a: int| 0 <= a < c.done.len() ==> 0 <= #[trigger] c.done[a] < n && commits::<H>(
                hs,
                vars[c.done[a]],
            )
            &&& forall|a: int, b: int|
                #![trigger c.done[a], c.done[b]]
                0 <= a < b < c.done.len() ==> c.done[a] < c.done[b]
            &&& forall|j: int|
                0 <= j < n && commits::<H>(hs, #[trigger] vars[j]) ==> c.done.contains(j)
            &&& match c.failed {
                None => forall|j: int| 0 <= j < n ==> commits::<H>(hs, #[trigger] vars[j]),
                Some(f) => {
                    &&& 0 <= f.0 < n
                    &&& H::commit_of(
                        hs[owner::<H>(hs, vars[f.0].oid)->0],
                        vars[f.0].oid,
                        vars[f.0].value,
                    ).1 == Err::<(), ErrorStatus>(f.1)
                    &&& forall|j: int| 0 <= j < f.0 ==> commits::<H>(hs, #[trigger] vars[j])
                },
            }
        }),
    decreases n,
{
    if n > 0 {
        let i = n - 1;
        lemma_commit_pass::<H>(hs, vars, i as nat);
        let before = commit::<H>(hs, vars, i as nat);
        let c = commit::<H>(hs, vars, n);
        let b = vars[i];
        lemma_owner_among::<H>(hs, b.oid, hs.len());
        lemma_owner_same_roots::<H>(hs, before.hs, b.oid, hs.len());
        let k = owner::<H>(hs, b.oid)->0;
        assert(can_undo::<H>(hs[k], b));
        assert forall|j: int| 0 <= j < i implies owner::<H>(hs, (#[trigger] vars[j]).oid) != Some(
            k,
        ) by {
            assert(owner::<H>(hs, vars[j].oid) != owner::<H>(hs, vars[i].oid));
        }
        assert(before.hs[k] == hs[k]);
        let out = H::commit_of(hs[k], b.oid, b.value);
        assert(c.hs == before.hs.update(k, out.0));
        assert forall|m: int| 0 <= m < hs.len() implies #[trigger] H::root_of(c.hs[m])
            == H::root_of(hs[m]) by {}
        assert forall|j: int| 0 <= j < n implies c.hs[owner::<H>(hs, (#[trigger] vars[j]).oid)->0]
            == H::commit_of(
            hs[owner::<H>(hs, vars[j].oid)->0],
            vars[j].oid,
            vars[j].value,
        ).0 by {
            lemma_owner_among::<H>(hs, vars[j].oid, hs.len());
            if j < i {
                assert(owner::<H>(hs, vars[j].oid) != Some(k));
                assert(owner::<H>(hs, vars[j].oid) is Some);
            }
        }
        assert forall|m: int|
            0 <= m < hs.len() && (forall|j: int|
                0 <= j < n ==> owner::<H>(hs, (#[trigger] vars[j]).oid) != Some(
                    m,
                )) implies #[trigger] c.hs[m] == hs[m] by {
            assert(owner::<H>(hs, vars[i].oid) != Some(m));
            assert(before.hs[m] == hs[m]);
        }
        assert forall|j: int| 0 <= j < n && commits::<H>(
            hs,
            #[trigger] vars[j],
        ) implies c.done.contains(j) by {
            if j < i {
                let a = choose|a: int| 0 <= a < before.done.len() && before.done[a] == j;
                assert(c.done[a] == j);
            } else {
                assert(c.done[c.done.len() - 1] == j);
            }
        }
    }
}

proof fn lemma_undo_pass<H: MibHandler>(hs: Seq<H::State>, vars: Seq<VarBindView>, k: nat)
    requires
        apart_and_undoable::<H>(hs, vars),
        k <= commit::<H>(hs, vars, vars.len()).done.len(),
    ensures
        ({
            let c = commit::<H>(hs, vars, vars.len());
            let u = undo::<H>(c.hs, vars, c.done, k);
            &&& u.1
            &&& same_roots::<H>(hs, u.0)
            &&& forall|a: int|
                0 <= a < k ==> u.0[owner::<H>(hs, vars[#[trigger] c.done[a]].oid)->0]
                    == hs[owner::<H>(hs, vars[c.done[a]].oid)->0]
            &&& forall|m: int|
                0 <= m < hs.len() && (forall|a: int|
                    0 <= a < k ==> owner::<H>(hs, vars[#[trigger] c.done[a]].oid) != Some(m))
                    ==> #[trigger] u.0[m] == c.hs[m]
        }),
    decreases k,
{
    let c = commit::<H>(hs, vars, vars.len());
    lemma_commit_pass::<H>(hs, vars, vars.len());
    if k > 0 {
        lemma_undo_pass::<H>(hs, vars, (k - 1) as nat);
        let before = undo::<H>(c.hs, vars, c.done, (k - 1) as nat);
        let u = undo::<H>(c.hs, vars, c.done, k);
        let i = c.done[k - 1];
        let b = vars[i];
        lemma_owner_among::<H>(hs, b.oid, hs.len());
        lemma_owner_same_roots::<H>(hs, before.0, b.oid, hs.len());
        let o = owner::<H>(hs, b.oid)->0;
        assert forall|a: int| 0 <= a < k - 1 implies owner::<H>(hs, vars[#[trigger] c.done[a]].oid)
            != Some(o) by {
            assert(c.done[a] < c.done[k - 1]);
            assert(owner::<H>(hs, vars[c.done[a]].oid) != owner::<H>(hs, vars[i].oid));
        }
        assert(before.0[o] == c.hs[o]);
        assert(can_undo::<H>(hs[o], b));
        assert(commits::<H>(hs, b));
        assert(c.hs[o] == H::commit_of(hs[o], b.oid, b.value).0);
        assert(u.0 == before.0.update(o, hs[o]));
        assert forall|a: int| 0 <= a < k implies u.0[owner::<H>(
            hs,
            vars[#[trigger] c.done[a]].oid,
        )->0] == hs[owner::<H>(hs, vars[c.done[a]].oid)->0] by {
            lemma_owner_among::<H>(hs, vars[c.done[a]].oid, hs.len());
            if a < k - 1 {
                assert(owner::<H>(hs, vars[c.done[a]].oid) != Some(o));
                assert(owner::<H>(hs, vars[c.done[a]].oid) is Some);
            }
        }
        assert forall|m: int|
            0 <= m < hs.len() && (forall|a: int|
                0 <= a < k ==> owner::<H>(hs, vars[#[trigger] c.done[a]].oid) != Some(
                    m,
                )) implies #[trigger] u.0[m] == c.hs[m] by {
            assert(owner::<H>(hs, vars[c.done[k - 1]].oid) != Some(m));
            assert(before.0[m] == c.hs[m]);
        }
    }
}

/// A SET that fails in the commit phase is taken back: what had been committed before and after the
/// failure is undone, so that every handler is as it was, and the first failure is reported. It
/// asks that each binding goes to a handler of its own, which can undo.
pub proof fn failed_set_is_undone<H: MibHandler>(hs: Seq<H::State>, request: PduView, i: int)
    requires
        request.pdu_type == PduType::SetRequest,
        apart_and_undoable::<H>(hs, request.variables),
        0 <= i < request.variables.len() < i64::MAX,
        !commits::<H>(hs, request.variables[i]),
        forall|j: int| 0 <= j < i ==> commits::<H>(hs, #[trigger] request.variables[j]),
    ensures
        ({
            let (after, response) = answer::<H>(hs, request, open_access());
            let b = request.variables[i];
            let why = H::commit_of(
                hs[owner::<H>(hs, b.oid)->0],
                b.oid,
                b.value,
            ).1->Err_0;
            &&& after == hs
            &&& response.error_status == why.code_of()
            &&& response.error_index == i + 1
            &&& response.variables == request.variables
        }),
{
    let vars = request.variables;
    lemma_all_open(vars, AccessView::Write, 0);
    lemma_reserve_accepts::<H>(hs, vars, 0);
    lemma_commit_pass::<H>(hs, vars, vars.len());
    let c = commit::<H>(hs, vars, vars.len());
    let f = c.failed->0;
    if c.failed is None {
        assert(commits::<H>(hs, vars[i]));
    }
    assert(!commits::<H>(hs, vars[f.0]));
    if f.0 < i {
        assert(commits::<H>(hs, vars[f.0]));
    } else if i < f.0 {
        assert(commits::<H>(hs, vars[i]));
    }
    lemma_undo_pass::<H>(hs, vars, c.done.len());
    let u = undo::<H>(c.hs, vars, c.done, c.done.len());
    assert forall|m: int| 0 <= m < hs.len() implies u.0[m] == hs[m] by {
        if exists|j: int| 0 <= j < vars.len() && owner::<H>(hs, (#[trigger] vars[j]).oid) == Some(m) {
            let j = choose|j: int|
                0 <= j < vars.len() && owner::<H>(hs, (#[trigger] vars[j]).oid) == Some(m);
            assert(can_undo::<H>(hs[m], vars[j]));
            if commits::<H>(hs, vars[j]) {
                assert(c.done.contains(j));
                let a = choose|a: int| 0 <= a < c.done.len() && c.done[a] == j;
                assert(owner::<H>(hs, vars[c.done[a]].oid) == Some(m));
            } else {
                assert forall|a: int| 0 <= a < c.done.len() implies owner::<H>(
                    hs,
                    vars[#[trigger] c.done[a]].oid,
                ) != Some(m) by {
                    let x = c.done[a];
                    assert(commits::<H>(hs, vars[x]));
                    if x < j {
                        assert(owner::<H>(hs, vars[x].oid) != owner::<H>(hs, vars[j].oid));
                    } else if j < x {
                        assert(owner::<H>(hs, vars[j].oid) != owner::<H>(hs, vars[x].oid));
                    }
                }
                assert(u.0[m] == c.hs[m]);
            }
        } else {
            assert forall|a: int| 0 <= a < c.done.len() implies owner::<H>(
                hs,
                vars[#[trigger] c.done[a]].oid,
            ) != Some(m) by {
                let x = c.done[a];
                assert(owner::<H>(hs, vars[x].oid) != Some(m));
            }
            assert(u.0[m] == c.hs[m]);
        }
    }
    assert(u.0 =~= hs);
}

} // verus!
