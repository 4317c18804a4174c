//! What access control decides: which entries count, and which view a request goes by.

use vstd::arithmetic::power2::pow2;
use vstd::prelude::*;

use crate::handler::MibHandler;
use crate::oid::is_prefix;
use crate::oid::lemma_room_shrinks;
use crate::oid::lex_lt;
use crate::oid::room;
use crate::pdu::PduType;
use crate::pdu::PduView;
use crate::registry::answer;
use crate::registry::at_least_zero;
use crate::registry::bulk;
use crate::registry::bulk_row;
use crate::registry::bulk_rows;
use crate::registry::bulk_step;
use crate::registry::first_denied;
use crate::registry::names;
use crate::registry::next_bind;
use crate::registry::next_readable;
use crate::registry::once_count;
use crate::registry::open_access;
use crate::registry::Access;
use crate::vacm::applies;
use crate::vacm::deciding;
use crate::vacm::group_of;
use crate::vacm::in_family;
use crate::vacm::in_view;
use crate::vacm::mask_bit;
use crate::vacm::view_name;
use crate::vacm::view_of;
use crate::vacm::AccessView;
use crate::vacm::ContextMatch;
use crate::vacm::Requester;
use crate::vacm::Vacm;
use crate::vacm::VacmAccess;
use crate::vacm::VacmGroup;
use crate::vacm::VacmView;
use crate::vacm::ViewTreeFamilyType;
use crate::value::ValueView;
use crate::value::VarBindView;

verus! {

/// Whether a group entry is for a requester.
pub open spec fn names_requester(g: VacmGroup, who: Requester) -> bool {
    g.security_model == who.model && g.security_name@ == who.name
}

/// Whether an access entry is for a requester in a group: of that group, for any security model
/// (zero) or theirs, for their security level or a lower one, and for their context or a beginning
/// of it.
pub open spec fn is_for(a: VacmAccess, group: Seq<u8>, who: Requester) -> bool {
    let n = a.context_prefix@.len() as int;
    &&& a.group@ == group
    &&& a.security_model != 0 ==> a.security_model == who.model
    &&& who.level >= a.security_level
    &&& n <= who.context.len()
    &&& who.context.subrange(0, n) == a.context_prefix@
    &&& a.context_match == ContextMatch::Exact ==> n == who.context.len()
}

/// The first group entry for a requester and the first access entry for that group decide: reading
/// goes by the read view of that entry, writing by its write view, notifying by its notify view,
/// and without such a view there is no access.
pub proof fn first_entries_decide(vacm: Vacm, who: Requester, oid: Seq<u32>, g: int, a: int)
    requires
        0 <= g < vacm.group_list().len(),
        names_requester(vacm.group_list()[g], who),
        forall|k: int| 0 <= k < g ==> !names_requester(#[trigger] vacm.group_list()[k], who),
        0 <= a < vacm.access_list().len(),
        is_for(vacm.access_list()[a], vacm.group_list()[g].group@, who),
        forall|k: int|
            0 <= k < a ==> !is_for(
                #[trigger] vacm.access_list()[k],
                vacm.group_list()[g].group@,
                who,
            ),
    ensures
        ({
            let e = vacm.access_list()[a];
            &&& vacm.grants(AccessView::Read, who, oid) <==> e.read_view is Some && in_view(
                vacm.view_list(),
                e.read_view->0@,
                oid,
            )
            &&& vacm.grants(AccessView::Write, who, oid) <==> e.write_view is Some && in_view(
                vacm.view_list(),
                e.write_view->0@,
                oid,
            )
            &&& vacm.grants(AccessView::Notify, who, oid) <==> e.notify_view is Some && in_view(
                vacm.view_list(),
                e.notify_view->0@,
                oid,
            )
        }),
{
    lemma_group_at(vacm.group_list(), who, g);
    let group = vacm.group_list()[g].group@;
    lemma_view_at(vacm.access_list(), group, who, AccessView::Read, a);
    lemma_view_at(vacm.access_list(), group, who, AccessView::Write, a);
    lemma_view_at(vacm.access_list(), group, who, AccessView::Notify, a);
}

/// A requester that no group entry names has no access, unless nothing is configured.
pub proof fn strangers_have_no_access(
    vacm: Vacm,
    view_type: AccessView,
    who: Requester,
    oid: Seq<u32>,
)
    requires
        !vacm.is_blank(),
        forall|k: int|
            0 <= k < vacm.group_list().len() ==> !names_requester(
                #[trigger] vacm.group_list()[k],
                who,
            ),
    ensures
        !vacm.grants(view_type, who, oid),
{
    lemma_no_group(vacm.group_list(), who);
}

/// A requester whose group no access entry is for has no access.
pub proof fn groups_without_entry_have_no_access(
    vacm: Vacm,
    view_type: AccessView,
    who: Requester,
    oid: Seq<u32>,
    g: int,
)
    requires
        0 <= g < vacm.group_list().len(),
        names_requester(vacm.group_list()[g], who),
        forall|k: int| 0 <= k < g ==> !names_requester(#[trigger] vacm.group_list()[k], who),
        forall|k: int|
            0 <= k < vacm.access_list().len() ==> !is_for(
                #[trigger] vacm.access_list()[k],
                vacm.group_list()[g].group@,
                who,
            ),
    ensures
        !vacm.grants(view_type, who, oid),
{
    lemma_group_at(vacm.group_list(), who, g);
    lemma_no_view(vacm.access_list(), vacm.group_list()[g].group@, who, view_type);
}

proof fn lemma_group_at(groups: Seq<VacmGroup>, who: Requester, g: int)
    requires
        0 <= g < groups.len(),
        names_requester(groups[g], who),
        forall|k: int| 0 <= k < g ==> !names_requester(#[trigger] groups[k], who),
    ensures
        group_of(groups, who.model, who.name) == Some(groups[g].group@),
    decreases g,
{
    if g > 0 {
        let t = groups.drop_first();
        assert(!names_requester(groups[0], who));
        assert forall|k: int| 0 <= k < g - 1 implies !names_requester(#[trigger] t[k], who) by {
            assert(t[k] == groups[k + 1]);
        }
        lemma_group_at(t, who, g - 1);
    }
}

proof fn lemma_no_group(groups: Seq<VacmGroup>, who: Requester)
    requires
        forall|k: int| 0 <= k < groups.len() ==> !names_requester(#[trigger] groups[k], who),
    ensures
        group_of(groups, who.model, who.name) is None,
    decreases groups.len(),
{
    if groups.len() > 0 {
        let t = groups.drop_first();
        assert(!names_requester(groups[0], who));
        assert forall|k: int| 0 <= k < t.len() implies !names_requester(#[trigger] t[k], who) by {
            assert(t[k] == groups[k + 1]);
        }
        lemma_no_group(t, who);
    }
}

proof fn lemma_is_for(a: VacmAccess, group: Seq<u8>, who: Requester)
    ensures
        applies(a, group, who) <==> is_for(a, group, who),
{
    let n = a.context_prefix@.len() as int;
    if n <= who.context.len() {
        assert(who.context.take(n) =~= who.context.subrange(0, n));
        if n == who.context.len() {
            assert(who.context.subrange(0, n) =~= who.context);
        }
    }
}

proof fn lemma_view_at(
    access: Seq<VacmAccess>,
    group: Seq<u8>,
    who: Requester,
    view_type: AccessView,
    a: int,
)
    requires
        0 <= a < access.len(),
        is_for(access[a], group, who),
        forall|k: int| 0 <= k < a ==> !is_for(#[trigger] access[k], group, who),
    ensures
        view_of(access, group, who, view_type) == view_name(access[a], view_type),
    decreases a,
{
    lemma_is_for(access[0], group, who);
    if a > 0 {
        let t = access.drop_first();
        assert(!is_for(access[0], group, who));
        assert forall|k: int| 0 <= k < a - 1 implies !is_for(#[trigger] t[k], group, who) by {
            assert(t[k] == access[k + 1]);
        }
        lemma_view_at(t, group, who, view_type, a - 1);
    }
}

proof fn lemma_no_view(
    access: Seq<VacmAccess>,
    group: Seq<u8>,
    who: Requester,
    view_type: AccessView,
)
    requires
        forall|k: int| 0 <= k < access.len() ==> !is_for(#[trigger] access[k], group, who),
    ensures
        view_of(access, group, who, view_type) is None,
    decreases access.len(),
{
    if access.len() > 0 {
        let t = access.drop_first();
        lemma_is_for(access[0], group, who);
        assert(!is_for(access[0], group, who));
        assert forall|k: int| 0 <= k < t.len() implies !is_for(#[trigger] t[k], group, who) by {
            assert(t[k] == access[k + 1]);
        }
        lemma_no_view(t, group, who, view_type);
    }
}

/// Bit `i` of a mask, counted from the highest bit of its first byte; bits beyond its end are ones.
pub open spec fn bit_of(mask: Seq<u8>, i: int) -> int {
    if i / 8 < mask.len() {
        (mask[i / 8] as int / pow2((7 - i % 8) as nat) as int) % 2
    } else {
        1
    }
}

/// Whether a view family holds an OID: it is no shorter than the subtree, and equals it in each arc
/// whose bit of the mask is one.
pub open spec fn family_has(v: VacmView, oid: Seq<u32>) -> bool {
    &&& v.subtree@.len() <= oid.len()
    &&& forall|i: int|
        0 <= i < v.subtree@.len() && #[trigger] bit_of(v.mask@, i) == 1 ==> v.subtree@[i] == oid[i]
}

proof fn lemma_bit_of(mask: Seq<u8>, i: int)
    requires
        i >= 0,
    ensures
        mask_bit(mask, i) <==> bit_of(mask, i) == 1,
{
    vstd::arithmetic::power2::lemma2_to64();
    if i / 8 < mask.len() {
        let b = mask[i / 8];
        let k = (7 - i % 8) as u8;
        assert((b >> 0u8) & 1u8 == b % 2 && (b >> 1u8) & 1u8 == (b / 2) % 2 && (b >> 2u8) & 1u8
            == (b / 4) % 2 && (b >> 3u8) & 1u8 == (b / 8) % 2 && (b >> 4u8) & 1u8 == (b / 16) % 2
            && (b >> 5u8) & 1u8 == (b / 32) % 2 && (b >> 6u8) & 1u8 == (b / 64) % 2 && (b >> 7u8)
            & 1u8 == (b / 128) % 2) by (bit_vector);
        if k == 0 {
            assert((7 - i % 8) as nat == 0);
            assert(bit_of(mask, i) == (b as int / 1) % 2);
        }
        if k == 1 {
            assert((7 - i % 8) as nat == 1);
            assert(bit_of(mask, i) == (b as int / 2) % 2);
        }
        if k == 2 {
            assert((7 - i % 8) as nat == 2);
            assert(bit_of(mask, i) == (b as int / 4) % 2);
        }
        if k == 3 {
            assert((7 - i % 8) as nat == 3);
            assert(bit_of(mask, i) == (b as int / 8) % 2);
        }
        if k == 4 {
            assert((7 - i % 8) as nat == 4);
            assert(bit_of(mask, i) == (b as int / 16) % 2);
        }
        if k == 5 {
            assert((7 - i % 8) as nat == 5);
            assert(bit_of(mask, i) == (b as int / 32) % 2);
        }
        if k == 6 {
            assert((7 - i % 8) as nat == 6);
            assert(bit_of(mask, i) == (b as int / 64) % 2);
        }
        if k == 7 {
            assert((7 - i % 8) as nat == 7);
            assert(bit_of(mask, i) == (b as int / 128) % 2);
        }
    }
}

proof fn lemma_family_has(v: VacmView, oid: Seq<u32>)
    ensures
        in_family(v.subtree@, v.mask@, oid) <==> family_has(v, oid),
{
    let n = v.subtree@.len() as int;
    if in_family(v.subtree@, v.mask@, oid) {
        assert forall|i: int| 0 <= i < n && #[trigger] bit_of(v.mask@, i) == 1 implies v.subtree@[i]
            == oid[i] by {
            lemma_bit_of(v.mask@, i);
            assert(mask_bit(v.mask@, i));
        }
    }
    if family_has(v, oid) {
        assert forall|i: int| 0 <= i < n && #[trigger] mask_bit(v.mask@, i) implies v.subtree@[i]
            == oid[i] by {
            lemma_bit_of(v.mask@, i);
            assert(bit_of(v.mask@, i) == 1);
        }
    }
}

/// Of the families of a view that hold an OID the one with the longest subtree decides, and of
/// several the last: the OID is in the view exactly if that family is included.
pub proof fn longest_family_decides(
    views: Seq<(Vec<u8>, VacmView)>,
    name: Seq<u8>,
    oid: Seq<u32>,
    f: int,
)
    requires
        0 <= f < views.len(),
        views[f].0@ == name,
        family_has(views[f].1, oid),
        forall|k: int|
            0 <= k < views.len() && (#[trigger] views[k]).0@ == name && family_has(views[k].1, oid)
                ==> {
                &&& views[k].1.subtree@.len() <= views[f].1.subtree@.len()
                &&& views[k].1.subtree@.len() == views[f].1.subtree@.len() ==> k <= f
            },
    ensures
        in_view(views, name, oid) <==> views[f].1.typ == ViewTreeFamilyType::Included,
{
    lemma_deciding(views, name, oid, views.len());
}

/// An OID that no family of a view holds is not in the view.
pub proof fn outside_all_families(views: Seq<(Vec<u8>, VacmView)>, name: Seq<u8>, oid: Seq<u32>)
    requires
        forall|k: int|
            0 <= k < views.len() && (#[trigger] views[k]).0@ == name ==> !family_has(
                views[k].1,
                oid,
            ),
    ensures
        !in_view(views, name, oid),
{
    lemma_deciding(views, name, oid, views.len());
}

proof fn lemma_deciding(
    views: Seq<(Vec<u8>, VacmView)>,
    name: Seq<u8>,
    oid: Seq<u32>,
    n: nat,
)
    requires
        n <= views.len(),
    ensures
        deciding(views, name, oid, n) matches Some(d) ==> 0 <= d < n && views[d].0@ == name
            && family_has(views[d].1, oid),
        forall|k: int|
            0 <= k < n && (#[trigger] views[k]).0@ == name && family_has(views[k].1, oid) ==> {
                &&& deciding(views, name, oid, n) matches Some(d)
                &&& views[k].1.subtree@.len() <= views[d].1.subtree@.len()
                &&& views[k].1.subtree@.len() == views[d].1.subtree@.len() ==> k <= d
            },
    decreases n,
{
    if n > 0 {
        lemma_deciding(views, name, oid, (n - 1) as nat);
        lemma_family_has(views[n - 1].1, oid);
    }
}

/// A family without a mask is a subtree.
pub proof fn family_without_mask_is_a_subtree(v: VacmView, oid: Seq<u32>)
    requires
        v.mask@.len() == 0,
    ensures
        in_family(v.subtree@, v.mask@, oid) <==> is_prefix(v.subtree@, oid),
{
    lemma_family_has(v, oid);
    let n = v.subtree@.len() as int;
    if family_has(v, oid) {
        assert forall|i: int| 0 <= i < n implies oid.take(n)[i] == v.subtree@[i] by {
            assert(bit_of(v.mask@, i) == 1);
        }
        assert(oid.take(n) =~= v.subtree@);
    }
    if is_prefix(v.subtree@, oid) {
        assert forall|i: int| 0 <= i < n && #[trigger] bit_of(v.mask@, i) == 1 implies v.subtree@[i]
            == oid[i] by {
            assert(oid.take(n)[i] == oid[i]);
        }
    }
}

/// Whether two access entries differ in nothing but the views of other kinds than `kind`.
pub open spec fn same_for(a: VacmAccess, b: VacmAccess, kind: AccessView) -> bool {
    &&& a.group@ == b.group@
    &&& a.context_prefix@ == b.context_prefix@
    &&& a.security_model == b.security_model
    &&& a.security_level == b.security_level
    &&& a.context_match == b.context_match
    &&& match kind {
        AccessView::Read => a.read_view == b.read_view,
        AccessView::Write => a.write_view == b.write_view,
        AccessView::Notify => a.notify_view == b.notify_view,
    }
}

/// Whether two access controls differ in nothing but the views of other kinds than `kind`.
pub open spec fn agree_on(a: Access, b: Access, kind: AccessView) -> bool {
    &&& a.who == b.who
    &&& a.vacm is Some
    &&& b.vacm is Some
    &&& a.vacm->0.group_list() == b.vacm->0.group_list()
    &&& a.vacm->0.view_list() == b.vacm->0.view_list()
    &&& a.vacm->0.access_list().len() == b.vacm->0.access_list().len()
    &&& forall|i: int|
        #![trigger a.vacm->0.access_list()[i]]
        #![trigger b.vacm->0.access_list()[i]]
        0 <= i < a.vacm->0.access_list().len() ==> same_for(
            a.vacm->0.access_list()[i],
            b.vacm->0.access_list()[i],
            kind,
        )
}

proof fn lemma_same_view(
    x: Seq<VacmAccess>,
    y: Seq<VacmAccess>,
    group: Seq<u8>,
    who: Requester,
    kind: AccessView,
)
    requires
        x.len() == y.len(),
        forall|i: int|
            #![trigger x[i]]
            #![trigger y[i]]
            0 <= i < x.len() ==> same_for(x[i], y[i], kind),
    ensures
        view_of(x, group, who, kind) == view_of(y, group, who, kind),
    decreases x.len(),
{
    if x.len() > 0 {
        assert(same_for(x[0], y[0], kind));
        let s = x.drop_first();
        let t = y.drop_first();
        assert forall|i: int|
            #![trigger s[i]]
            #![trigger t[i]]
            0 <= i < s.len() implies same_for(s[i], t[i], kind) by {
            assert(s[i] == x[i + 1] && t[i] == y[i + 1]);
        }
        lemma_same_view(s, t, group, who, kind);
    }
}

proof fn lemma_same_permits(a: Access, b: Access, kind: AccessView)
    requires
        agree_on(a, b, kind),
    ensures
        forall|oid: Seq<u32>| #[trigger] a.permits(kind, oid) == b.permits(kind, oid),
{
    let va = a.vacm->0;
    let vb = b.vacm->0;
    assert forall|oid: Seq<u32>| #[trigger] a.permits(kind, oid) == b.permits(kind, oid) by {
        match group_of(va.group_list(), a.who.model, a.who.name) {
            Some(group) => {
                lemma_same_view(va.access_list(), vb.access_list(), group, a.who, kind);
            },
            None => {},
        }
    }
}

proof fn lemma_same_denied(
    vars: Seq<VarBindView>,
    a: Access,
    b: Access,
    kind: AccessView,
    i: int,
)
    requires
        forall|oid: Seq<u32>| #[trigger] a.permits(kind, oid) == b.permits(kind, oid),
        0 <= i,
    ensures
        first_denied(vars, a, kind, i) == first_denied(vars, b, kind, i),
    decreases vars.len() - i,
{
    if i < vars.len() {
        assert(a.permits(kind, vars[i].oid) == b.permits(kind, vars[i].oid));
        lemma_same_denied(vars, a, b, kind, i + 1);
    }
}

/// Which read views and notify views there are makes no difference to a SET.
pub proof fn set_goes_by_the_write_view<H: MibHandler>(
    hs: Seq<H::State>,
    request: PduView,
    a: Access,
    b: Access,
)
    requires
        request.pdu_type == PduType::SetRequest,
        agree_on(a, b, AccessView::Write),
    ensures
        answer::<H>(hs, request, a) == answer::<H>(hs, request, b),
{
    lemma_same_permits(a, b, AccessView::Write);
    lemma_same_denied(request.variables, a, b, AccessView::Write, 0);
}

/// Which write views and notify views there are makes no difference to a GET, a GETNEXT or a
/// GETBULK.
pub proof fn reading_goes_by_the_read_view<H: MibHandler>(
    hs: Seq<H::State>,
    request: PduView,
    a: Access,
    b: Access,
)
    requires
        request.pdu_type != PduType::SetRequest,
        agree_on(a, b, AccessView::Read),
    ensures
        answer::<H>(hs, request, a) == answer::<H>(hs, request, b),
{
    lemma_same_permits(a, b, AccessView::Read);
    let vars = request.variables;
    lemma_same_denied(vars, a, b, AccessView::Read, 0);
    assert forall|s: Seq<u32>, c: Seq<u32>| #[trigger]
        next_readable::<H>(hs, a, s, c) == next_readable::<H>(hs, b, s, c) by {
        lemma_same_readable::<H>(hs, a, b, s, c);
    }
    assert(vars.map_values(|x: VarBindView| next_readable::<H>(hs, a, x.oid, x.oid))
        =~= vars.map_values(|x: VarBindView| next_readable::<H>(hs, b, x.oid, x.oid)));
    assert forall|cs: Seq<Seq<u32>>| #[trigger]
        bulk_row::<H>(hs, a, cs) == bulk_row::<H>(hs, b, cs) by {
        assert forall|o: Seq<u32>| #[trigger] bulk_step::<H>(hs, a, o) == bulk_step::<H>(
            hs,
            b,
            o,
        ) by {}
        assert(bulk_row::<H>(hs, a, cs) =~= bulk_row::<H>(hs, b, cs));
    }
    let n = once_count(request) as int;
    lemma_same_rows::<H>(hs, a, b, names(vars).skip(n), at_least_zero(request.error_index));
    assert(bulk::<H>(hs, a, request) == bulk::<H>(hs, b, request));
}

proof fn lemma_same_readable<H: MibHandler>(
    hs: Seq<H::State>,
    a: Access,
    b: Access,
    start: Seq<u32>,
    cursor: Seq<u32>,
)
    requires
        forall|oid: Seq<u32>| #[trigger]
            a.permits(AccessView::Read, oid) == b.permits(AccessView::Read, oid),
    ensures
        next_readable::<H>(hs, a, start, cursor) == next_readable::<H>(hs, b, start, cursor),
    decreases room(cursor),
{
    let nx = next_bind::<H>(hs, cursor);
    assert(a.permits(AccessView::Read, nx.oid) == b.permits(AccessView::Read, nx.oid));
    if nx.value != ValueView::EndOfMibView && !a.permits(AccessView::Read, nx.oid) && lex_lt(
        cursor,
        nx.oid,
    ) && cursor.len() <= usize::MAX && nx.oid.len() <= usize::MAX {
        lemma_room_shrinks(cursor, nx.oid);
        lemma_same_readable::<H>(hs, a, b, start, nx.oid);
    }
}

proof fn lemma_same_rows<H: MibHandler>(
    hs: Seq<H::State>,
    a: Access,
    b: Access,
    cursors: Seq<Seq<u32>>,
    reps: nat,
)
    requires
        forall|cs: Seq<Seq<u32>>| #[trigger]
            bulk_row::<H>(hs, a, cs) == bulk_row::<H>(hs, b, cs),
    ensures
        bulk_rows::<H>(hs, a, cursors, reps) == bulk_rows::<H>(hs, b, cursors, reps),
    decreases reps,
{
    if reps > 0 {
        let row = bulk_row::<H>(hs, a, cursors);
        lemma_same_rows::<H>(hs, a, b, names(row), (reps - 1) as nat);
    }
}

/// Whether a request is refused for want of access to its binding `i`: it is the first binding
/// outside the view of the requester, nothing changes, and the answer is the request with
/// noAccess(6) and the number of that binding.
pub open spec fn is_refused_at<H: MibHandler>(
    hs: Seq<H::State>,
    request: PduView,
    sec: Access,
    kind: AccessView,
    i: int,
) -> bool {
    let (after, response) = answer::<H>(hs, request, sec);
    &&& 0 <= i < request.variables.len()
    &&& !sec.permits(kind, request.variables[i].oid)
    &&& forall|j: int| 0 <= j < i ==> sec.permits(kind, (#[trigger] request.variables[j]).oid)
    &&& after == hs
    &&& response.pdu_type == PduType::Response
    &&& response.request_id == request.request_id
    &&& response.error_status == 6
    &&& response.error_index == (i + 1) as i64
    &&& response.variables == request.variables
}

/// A SET with a binding outside the write view of the requester is refused at the first such
/// binding; any other SET is answered as if there were no access control. A GET is refused in the
/// same way by the read view.
pub proof fn access_is_checked_first<H: MibHandler>(
    hs: Seq<H::State>,
    request: PduView,
    sec: Access,
    kind: AccessView,
)
    requires
        request.pdu_type == PduType::SetRequest && kind == AccessView::Write
            || request.pdu_type == PduType::Get && kind == AccessView::Read,
    ensures
        (exists|i: int|
            0 <= i < request.variables.len() && !sec.permits(
                kind,
                (#[trigger] request.variables[i]).oid,
            )) ==> exists|i: int| #[trigger] is_refused_at::<H>(hs, request, sec, kind, i),
        (forall|i: int|
            0 <= i < request.variables.len() ==> sec.permits(
                kind,
                (#[trigger] request.variables[i]).oid,
            )) ==> answer::<H>(hs, request, sec) == answer::<H>(hs, request, open_access()),
{
    let vars = request.variables;
    lemma_first_denied(vars, sec, kind, 0);
    lemma_first_denied(vars, open_access(), kind, 0);
    match first_denied(vars, sec, kind, 0) {
        Some(i) => {
            assert(is_refused_at::<H>(hs, request, sec, kind, i));
        },
        None => {},
    }
}

proof fn lemma_first_denied(vars: Seq<VarBindView>, sec: Access, kind: AccessView, i: int)
    requires
        0 <= i,
    ensures
        match first_denied(vars, sec, kind, i) {
            Some(k) => i <= k < vars.len() && !sec.permits(kind, vars[k].oid) && forall|j: int|
                i <= j < k ==> sec.permits(kind, (#[trigger] vars[j]).oid),
            None => forall|j: int|
                i <= j < vars.len() ==> sec.permits(kind, (#[trigger] vars[j]).oid),
        },
    decreases vars.len() - i,
{
    if i < vars.len() {
        lemma_first_denied(vars, sec, kind, i + 1);
    }
}

} // verus!
