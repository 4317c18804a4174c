//! What holds of request dispatch as a whole.

use vstd::prelude::*;

use crate::handler::MibHandler;
use crate::oid::extensions_keep_order;
use crate::oid::is_prefix;
use crate::oid::lemma_room_shrinks;
use crate::oid::lex_lt;
use crate::oid::lex_lt_irreflexive;
use crate::oid::lex_lt_total;
use crate::oid::lex_lt_transitive;
use crate::oid::room;
use crate::pdu::PduType;
use crate::pdu::PduView;
use crate::registry::answer;
use crate::registry::answering;
use crate::registry::at_least_zero;
use crate::registry::bulk;
use crate::registry::bulk_row;
use crate::registry::bulk_rows;
use crate::registry::bulk_step;
use crate::registry::commit;
use crate::registry::first_denied;
use crate::registry::names;
use crate::registry::next_bind;
use crate::registry::next_readable;
use crate::registry::once_count;
use crate::registry::open_access;
use crate::registry::owner;
use crate::registry::owner_among;
use crate::registry::placed;
use crate::registry::placed_all;
use crate::registry::read;
use crate::registry::reserve;
use crate::registry::roots_sorted;
use crate::registry::same_roots;
use crate::registry::successor;
use crate::registry::transact;
use crate::registry::Access;
use crate::vacm::AccessView;
use crate::value::ValueView;
use crate::value::VarBindView;

verus! {

/// The handler that answers for an OID has a root that begins it, no other such root is
/// longer, and of several handlers with one root the last answers.
pub proof fn owner_has_longest_root<H: MibHandler>(hs: Seq<H::State>, oid: Seq<u32>, j: int)
    requires
        0 <= j < hs.len(),
        is_prefix(H::root_of(hs[j]), oid),
    ensures
        owner::<H>(hs, oid) matches Some(k) && 0 <= k < hs.len() && is_prefix(
            H::root_of(hs[k]),
            oid,
        ) && H::root_of(hs[j]).len() <= H::root_of(hs[k]).len() && (H::root_of(hs[j]).len()
            == H::root_of(hs[k]).len() ==> j <= k),
{
    lemma_owner_among::<H>(hs, oid, hs.len());
}

pub(crate) proof fn lemma_owner_among<H: MibHandler>(hs: Seq<H::State>, oid: Seq<u32>, n: nat)
    requires
        n <= hs.len(),
    ensures
        owner_among::<H>(hs, oid, n) matches Some(k) ==> 0 <= k < n && is_prefix(
            H::root_of(hs[k]),
            oid,
        ),
        forall|j: int|
            0 <= j < n && is_prefix(H::root_of(#[trigger] hs[j]), oid) ==> {
                &&& owner_among::<H>(hs, oid, n) matches Some(k)
                &&& H::root_of(hs[j]).len() <= H::root_of(hs[k]).len()
                &&& (H::root_of(hs[j]).len() == H::root_of(hs[k]).len() ==> j <= k)
            },
    decreases n,
{
    if n > 0 {
        lemma_owner_among::<H>(hs, oid, (n - 1) as nat);
    }
}

proof fn lemma_placed_is_inserted<H: MibHandler>(hs: Seq<H::State>, s: H::State) -> (p: int)
    ensures
        0 <= p <= hs.len(),
        placed::<H>(hs, s) == hs.insert(p, s),
        forall|k: int|
            p <= k < hs.len() ==> lex_lt(H::root_of(s), H::root_of(#[trigger] hs[k])),
    decreases hs.len(),
{
    if hs.len() > 0 && lex_lt(H::root_of(s), H::root_of(hs.last())) {
        let t = hs.drop_last();
        let p = lemma_placed_is_inserted::<H>(t, s);
        assert(placed::<H>(hs, s) =~= hs.insert(p, s));
        assert forall|k: int| p <= k < hs.len() implies lex_lt(
            H::root_of(s),
            H::root_of(#[trigger] hs[k]),
        ) by {
            if k < t.len() {
                assert(t[k] == hs[k]);
            }
        }
        p
    } else {
        assert(placed::<H>(hs, s) =~= hs.insert(hs.len() as int, s));
        hs.len() as int
    }
}

/// Whether a registered root that begins `oid` is longer than the root of `s`.
pub open spec fn has_longer_root<H: MibHandler>(
    hs: Seq<H::State>,
    s: H::State,
    oid: Seq<u32>,
) -> bool {
    exists|j: int|
        0 <= j < hs.len() && is_prefix(H::root_of(#[trigger] hs[j]), oid) && H::root_of(hs[j]).len()
            > H::root_of(s).len()
}

/// A handler that is registered answers the GETs of its subtree, in place of handlers with the
/// same or a shorter root.
pub proof fn registered_handler_answers<H: MibHandler>(
    hs: Seq<H::State>,
    s: H::State,
    oid: Seq<u32>,
)
    requires
        is_prefix(H::root_of(s), oid),
        !has_longer_root::<H>(hs, s, oid),
    ensures
        answering::<H>(placed::<H>(hs, s), oid) == Some(s),
        read::<H>(placed::<H>(hs, s), oid) == match H::get_of(s, oid) {
            Some(v) => v,
            None => ValueView::NoSuchInstance,
        },
{
    let p = lemma_placed_is_inserted::<H>(hs, s);
    let n = placed::<H>(hs, s);
    assert(n[p] == s);
    owner_has_longest_root::<H>(n, oid, p);
    let k = owner::<H>(n, oid)->0;
    if k != p {
        let m = if k < p {
            k
        } else {
            k - 1
        };
        assert(n[k] == hs[m]);
        assert(H::root_of(hs[m]).len() == H::root_of(s).len());
        assert(H::root_of(hs[m]) =~= H::root_of(s));
        lex_lt_irreflexive(H::root_of(s));
        assert(m >= p);
        assert(lex_lt(H::root_of(s), H::root_of(hs[m])));
    }
}

/// Registering a handler leaves the GETs of all other OIDs as they were: of those outside its
/// subtree, and of those that a handler with a longer root answers.
pub proof fn registration_leaves_other_answers<H: MibHandler>(
    hs: Seq<H::State>,
    s: H::State,
    oid: Seq<u32>,
)
    requires
        !is_prefix(H::root_of(s), oid) || has_longer_root::<H>(hs, s, oid),
    ensures
        answering::<H>(placed::<H>(hs, s), oid) == answering::<H>(hs, oid),
        read::<H>(placed::<H>(hs, s), oid) == read::<H>(hs, oid),
{
    let p = lemma_placed_is_inserted::<H>(hs, s);
    let n = placed::<H>(hs, s);
    assert(n[p] == s);
    lemma_owner_among::<H>(hs, oid, hs.len());
    lemma_owner_among::<H>(n, oid, n.len());
    match owner::<H>(hs, oid) {
        Some(a) => {
            let fa = if a < p {
                a
            } else {
                a + 1
            };
            assert(n[fa] == hs[a]);
            owner_has_longest_root::<H>(n, oid, fa);
            let m = owner::<H>(n, oid)->0;
            if m == p {
                let j = choose|j: int|
                    0 <= j < hs.len() && is_prefix(H::root_of(#[trigger] hs[j]), oid)
                        && H::root_of(hs[j]).len() > H::root_of(s).len();
                owner_has_longest_root::<H>(hs, oid, j);
            } else {
                let b = if m < p {
                    m
                } else {
                    m - 1
                };
                assert(n[m] == hs[b]);
                owner_has_longest_root::<H>(hs, oid, b);
            }
        },
        None => {
            if let Some(m) = owner::<H>(n, oid) {
                if m != p {
                    let b = if m < p {
                        m
                    } else {
                        m - 1
                    };
                    assert(n[m] == hs[b]);
                    owner_has_longest_root::<H>(hs, oid, b);
                } else {
                    let j = choose|j: int|
                        0 <= j < hs.len() && is_prefix(H::root_of(#[trigger] hs[j]), oid)
                            && H::root_of(hs[j]).len() > H::root_of(s).len();
                    owner_has_longest_root::<H>(hs, oid, j);
                }
            }
        },
    }
}

/// Of handlers that are registered one after the other, the one with the longest root that begins
/// an OID answers for it, and of those with that root the last.
pub proof fn last_longest_root_answers<H: MibHandler>(
    hs: Seq<H::State>,
    more: Seq<H::State>,
    i: int,
    oid: Seq<u32>,
)
    requires
        0 <= i < more.len(),
        is_prefix(H::root_of(more[i]), oid),
        !has_longer_root::<H>(hs, more[i], oid),
        forall|j: int|
            0 <= j < more.len() && is_prefix(H::root_of(#[trigger] more[j]), oid) ==> {
                &&& H::root_of(more[j]).len() <= H::root_of(more[i]).len()
                &&& H::root_of(more[j]).len() == H::root_of(more[i]).len() ==> j <= i
            },
    ensures
        answering::<H>(placed_all::<H>(hs, more), oid) == Some(more[i]),
    decreases more.len(),
{
    let t = more.drop_last();
    let before = placed_all::<H>(hs, t);
    let last = more[more.len() - 1];
    if i == more.len() - 1 {
        lemma_no_longer_root::<H>(hs, t, last, oid);
        registered_handler_answers::<H>(before, last, oid);
    } else {
        assert(t[i] == more[i]);
        assert forall|j: int| 0 <= j < t.len() && is_prefix(H::root_of(#[trigger] t[j]), oid) implies {
            &&& H::root_of(t[j]).len() <= H::root_of(t[i]).len()
            &&& H::root_of(t[j]).len() == H::root_of(t[i]).len() ==> j <= i
        } by {
            assert(t[j] == more[j]);
        }
        last_longest_root_answers::<H>(hs, t, i, oid);
        if is_prefix(H::root_of(last), oid) {
            let k = owner::<H>(before, oid)->0;
            lemma_owner_among::<H>(before, oid, before.len());
            assert(before[k] == more[i]);
            assert(has_longer_root::<H>(before, last, oid));
        }
        registration_leaves_other_answers::<H>(before, last, oid);
    }
}

proof fn lemma_no_longer_root<H: MibHandler>(
    hs: Seq<H::State>,
    more: Seq<H::State>,
    s: H::State,
    oid: Seq<u32>,
)
    requires
        !has_longer_root::<H>(hs, s, oid),
        forall|j: int|
            0 <= j < more.len() && is_prefix(H::root_of(#[trigger] more[j]), oid) ==> H::root_of(
                more[j],
            ).len() <= H::root_of(s).len(),
    ensures
        !has_longer_root::<H>(placed_all::<H>(hs, more), s, oid),
    decreases more.len(),
{
    if more.len() > 0 {
        let t = more.drop_last();
        let last = more[more.len() - 1];
        assert forall|j: int| 0 <= j < t.len() && is_prefix(H::root_of(#[trigger] t[j]), oid) implies
            H::root_of(t[j]).len() <= H::root_of(s).len() by {
            assert(t[j] == more[j]);
        }
        lemma_no_longer_root::<H>(hs, t, s, oid);
        let before = placed_all::<H>(hs, t);
        let p = lemma_placed_is_inserted::<H>(before, last);
        let n = placed_all::<H>(hs, more);
        assert(n == before.insert(p, last));
        if has_longer_root::<H>(n, s, oid) {
            let j = choose|j: int|
                0 <= j < n.len() && is_prefix(H::root_of(#[trigger] n[j]), oid) && H::root_of(
                    n[j],
                ).len() > H::root_of(s).len();
            if j < p {
                assert(n[j] == before[j]);
            } else if j > p {
                assert(n[j] == before[j - 1]);
            } else {
                assert(n[j] == last);
            }
        }
    }
}

/// A handler answers GETNEXT from its own instances, in order.
pub open spec fn walks_its_instances<H: MibHandler>(s: H::State) -> bool {
    &&& forall|oid: Seq<u32>, p: Seq<u32>|
        #![trigger H::next_of(s, oid), H::get_of(s, p)]
        H::get_of(s, p) is Some && lex_lt(oid, p) ==> {
            &&& H::next_of(s, oid) matches Some(c)
            &&& !lex_lt(p, c.0)
        }
    &&& forall|oid: Seq<u32>|
        (#[trigger] H::next_of(s, oid)) matches Some(c) ==> lex_lt(oid, c.0) && H::get_of(s, c.0)
            == Some(c.1)
}

/// GETNEXT answers the least instance after the one asked for, over all handlers, and the end
/// of the view only when there is none. Their subtrees may lie within each other. It asks of the
/// handlers that each walks its own instances in order.
pub proof fn getnext_is_least<H: MibHandler>(
    hs: Seq<H::State>,
    oid: Seq<u32>,
    j: int,
    p: Seq<u32>,
)
    requires
        forall|i: int| 0 <= i < hs.len() ==> walks_its_instances::<H>(#[trigger] hs[i]),
        0 <= j < hs.len(),
        H::get_of(hs[j], p) is Some,
        lex_lt(oid, p),
    ensures
        successor::<H>(hs, oid) matches Some(c) && lex_lt(oid, c.0) && !lex_lt(p, c.0),
    decreases hs.len(),
{
    let t = hs.drop_last();
    let last = hs[hs.len() - 1];
    assert(walks_its_instances::<H>(last));
    assert forall|i: int| 0 <= i < t.len() implies walks_its_instances::<H>(#[trigger] t[i]) by {
        assert(t[i] == hs[i]);
    }
    let n = H::next_of(last, oid);
    if j < hs.len() - 1 {
        assert(t[j] == hs[j]);
        getnext_is_least::<H>(t, oid, j, p);
        let b = successor::<H>(t, oid)->0;
        if let Some(c) = n {
            if !lex_lt(b.0, c.0) && lex_lt(p, c.0) {
                lex_lt_total(b.0, p);
                if lex_lt(b.0, p) {
                    lex_lt_transitive(b.0, p, c.0);
                }
            }
        }
    } else {
        let c = n->0;
        if let Some(b) = successor::<H>(t, oid) {
            lemma_successor_advances::<H>(t, oid);
            if lex_lt(b.0, c.0) && lex_lt(p, b.0) {
                lex_lt_transitive(p, b.0, c.0);
            }
        }
    }
}

/// Handlers answer GETNEXT with OIDs after the one asked for.
pub open spec fn handlers_advance<H: MibHandler>(hs: Seq<H::State>) -> bool {
    forall|i: int, oid: Seq<u32>|
        #![trigger H::next_of(hs[i], oid)]
        0 <= i < hs.len() ==> (H::next_of(hs[i], oid) matches Some(c) ==> lex_lt(oid, c.0))
}

proof fn lemma_successor_advances<H: MibHandler>(hs: Seq<H::State>, oid: Seq<u32>)
    requires
        handlers_advance::<H>(hs) || forall|i: int|
            0 <= i < hs.len() ==> walks_its_instances::<H>(#[trigger] hs[i]),
    ensures
        successor::<H>(hs, oid) matches Some(c) ==> lex_lt(oid, c.0),
    decreases hs.len(),
{
    if hs.len() > 0 {
        let t = hs.drop_last();
        if handlers_advance::<H>(hs) {
            assert forall|i: int, o: Seq<u32>| #![trigger H::next_of(t[i], o)]
                0 <= i < t.len() implies (H::next_of(t[i], o) matches Some(c) ==> lex_lt(o, c.0)) by {
                assert(t[i] == hs[i]);
                assert(H::next_of(hs[i], o) matches Some(c) ==> lex_lt(o, c.0));
            }
            assert(handlers_advance::<H>(t));
        } else {
            assert forall|i: int| 0 <= i < t.len() implies walks_its_instances::<H>(
                #[trigger] t[i],
            ) by {
                assert(t[i] == hs[i]);
            }
            assert(walks_its_instances::<H>(hs[hs.len() - 1]));
        }
        lemma_successor_advances::<H>(t, oid);
        let last = hs[hs.len() - 1];
        assert(H::next_of(last, oid) matches Some(c) ==> lex_lt(oid, c.0));
    }
}

/// Whether all instances of a handler lie in its subtree.
pub open spec fn serves_its_subtree<H: MibHandler>(s: H::State) -> bool {
    forall|oid: Seq<u32>|
        (#[trigger] H::get_of(s, oid)) is Some ==> is_prefix(H::root_of(s), oid)
}

/// No root begins another.
pub open spec fn roots_apart<H: MibHandler>(hs: Seq<H::State>) -> bool {
    forall|i: int, j: int|
        #![trigger hs[i], hs[j]]
        0 <= i < hs.len() && 0 <= j < hs.len() && i != j ==> !is_prefix(
            H::root_of(hs[i]),
            H::root_of(hs[j]),
        )
}

/// With subtrees of which none lies within another, a walk visits them in order of their roots:
/// what a handler serves comes before what the handlers after it serve.
pub proof fn apart_subtrees_are_visited_in_order<H: MibHandler>(
    hs: Seq<H::State>,
    i: int,
    j: int,
    c: Seq<u32>,
    p: Seq<u32>,
)
    requires
        roots_sorted::<H>(hs),
        roots_apart::<H>(hs),
        0 <= i < j < hs.len(),
        serves_its_subtree::<H>(hs[i]),
        serves_its_subtree::<H>(hs[j]),
        H::get_of(hs[i], c) is Some,
        H::get_of(hs[j], p) is Some,
    ensures
        lex_lt(c, p),
{
    let a = H::root_of(hs[i]);
    let b = H::root_of(hs[j]);
    assert(!lex_lt(b, a));
    assert(!is_prefix(a, b));
    if a == b {
        assert(b.take(b.len() as int) =~= b);
    }
    lex_lt_total(a, b);
    extensions_keep_order(a, b, c, p);
}

proof fn lemma_two_prefixes(a: Seq<u32>, b: Seq<u32>, oid: Seq<u32>)
    requires
        is_prefix(a, oid),
        is_prefix(b, oid),
        a.len() <= b.len(),
    ensures
        is_prefix(a, b),
{
    assert(b.take(a.len() as int) =~= oid.take(a.len() as int));
}

/// With subtrees of which none lies within another, GETNEXT does not depend on the order in which
/// the handlers were registered.
pub proof fn registration_order_does_not_matter<H: MibHandler>(
    hs: Seq<H::State>,
    gs: Seq<H::State>,
    oid: Seq<u32>,
)
    requires
        roots_apart::<H>(hs),
        forall|s: H::State| #[trigger] hs.contains(s) <==> gs.contains(s),
        forall|i: int| 0 <= i < hs.len() ==> walks_its_instances::<H>(#[trigger] hs[i]),
        forall|i: int| 0 <= i < hs.len() ==> serves_its_subtree::<H>(#[trigger] hs[i]),
    ensures
        successor::<H>(hs, oid) == successor::<H>(gs, oid),
{
    assert forall|i: int| 0 <= i < gs.len() implies walks_its_instances::<H>(
        #[trigger] gs[i],
    ) by {
        assert(gs.contains(gs[i]));
        assert(hs.contains(gs[i]));
        let k = choose|k: int| 0 <= k < hs.len() && hs[k] == gs[i];
        assert(walks_its_instances::<H>(hs[k]));
    }
    if successor::<H>(hs, oid) is Some {
        getnext_answers_an_instance::<H>(hs, oid);
        let c = successor::<H>(hs, oid)->0;
        let i = choose|i: int| 0 <= i < hs.len() && H::get_of(#[trigger] hs[i], c.0) == Some(c.1);
        assert(hs.contains(hs[i]));
        assert(gs.contains(hs[i]));
        let k = choose|k: int| 0 <= k < gs.len() && gs[k] == hs[i];
        getnext_is_least::<H>(gs, oid, k, c.0);
    }
    if successor::<H>(gs, oid) is Some {
        getnext_answers_an_instance::<H>(gs, oid);
        let d = successor::<H>(gs, oid)->0;
        let j = choose|j: int| 0 <= j < gs.len() && H::get_of(#[trigger] gs[j], d.0) == Some(d.1);
        assert(gs.contains(gs[j]));
        assert(hs.contains(gs[j]));
        let m = choose|m: int| 0 <= m < hs.len() && hs[m] == gs[j];
        getnext_is_least::<H>(hs, oid, m, d.0);
        let c = successor::<H>(hs, oid)->0;
        getnext_answers_an_instance::<H>(hs, oid);
        let i = choose|i: int| 0 <= i < hs.len() && H::get_of(#[trigger] hs[i], c.0) == Some(c.1);
        lex_lt_total(c.0, d.0);
        assert(serves_its_subtree::<H>(hs[i]));
        assert(serves_its_subtree::<H>(hs[m]));
        let a = H::root_of(hs[i]);
        let b = H::root_of(hs[m]);
        if a.len() <= b.len() {
            lemma_two_prefixes(a, b, c.0);
        } else {
            lemma_two_prefixes(b, a, c.0);
        }
        assert(i == m);
    }
}

/// What GETNEXT answers is an instance after the one asked for, with its value, of one of the
/// handlers. It asks of the handlers that each walks its own instances.
pub proof fn getnext_answers_an_instance<H: MibHandler>(hs: Seq<H::State>, oid: Seq<u32>)
    requires
        forall|i: int| 0 <= i < hs.len() ==> walks_its_instances::<H>(#[trigger] hs[i]),
        successor::<H>(hs, oid) is Some,
    ensures
        ({
            let c = successor::<H>(hs, oid)->0;
            lex_lt(oid, c.0) && exists|i: int|
                0 <= i < hs.len() && H::get_of(#[trigger] hs[i], c.0) == Some(c.1)
        }),
    decreases hs.len(),
{
    let c = successor::<H>(hs, oid)->0;
    let last = hs[hs.len() - 1];
    assert(walks_its_instances::<H>(last));
    if H::next_of(last, oid) == Some(c) {
        assert(H::get_of(hs[hs.len() - 1], c.0) == Some(c.1));
    } else {
        let t = hs.drop_last();
        assert forall|i: int| 0 <= i < t.len() implies walks_its_instances::<H>(
            #[trigger] t[i],
        ) by {
            assert(t[i] == hs[i]);
        }
        getnext_answers_an_instance::<H>(t, oid);
        let i = choose|i: int| 0 <= i < t.len() && H::get_of(#[trigger] t[i], c.0) == Some(c.1);
        assert(H::get_of(hs[i], c.0) == Some(c.1));
    }
}

/// A GETNEXT under access control that finds something answers an OID behind the one asked for
/// that may be read; otherwise it answers the end of the view at the OID asked for. It asks of the
/// handlers that they advance.
pub proof fn getnext_answers_behind_the_start<H: MibHandler>(
    hs: Seq<H::State>,
    sec: Access,
    oid: Seq<u32>,
)
    requires
        handlers_advance::<H>(hs),
    ensures
        ({
            let r = next_readable::<H>(hs, sec, oid, oid);
            if r.value == ValueView::EndOfMibView {
                r.oid == oid
            } else {
                lex_lt(oid, r.oid) && sec.permits(AccessView::Read, r.oid)
            }
        }),
{
    lemma_readable_is_behind::<H>(hs, sec, oid, oid);
}

proof fn lemma_readable_is_behind<H: MibHandler>(
    hs: Seq<H::State>,
    sec: Access,
    start: Seq<u32>,
    cursor: Seq<u32>,
)
    requires
        handlers_advance::<H>(hs),
        start == cursor || lex_lt(start, cursor),
    ensures
        ({
            let r = next_readable::<H>(hs, sec, start, cursor);
            if r.value == ValueView::EndOfMibView {
                r.oid == start
            } else {
                lex_lt(start, r.oid) && sec.permits(AccessView::Read, r.oid)
            }
        }),
    decreases room(cursor),
{
    let nx = next_bind::<H>(hs, cursor);
    if nx.value != ValueView::EndOfMibView {
        lemma_successor_advances::<H>(hs, cursor);
        if start != cursor {
            lex_lt_transitive(start, cursor, nx.oid);
        }
        if !sec.permits(AccessView::Read, nx.oid) && cursor.len() <= usize::MAX && nx.oid.len()
            <= usize::MAX {
            lemma_room_shrinks(cursor, nx.oid);
            lemma_readable_is_behind::<H>(hs, sec, start, nx.oid);
        }
    }
}

/// A GETNEXT under access control answers an instance that may be read, or the end of the view
/// at the OID asked for. No OID that may not be read shows in the answer.
pub proof fn getnext_hides_what_is_denied<H: MibHandler>(
    hs: Seq<H::State>,
    sec: Access,
    start: Seq<u32>,
    cursor: Seq<u32>,
)
    ensures
        ({
            let r = next_readable::<H>(hs, sec, start, cursor);
            if r.value == ValueView::EndOfMibView {
                r.oid == start
            } else {
                sec.permits(AccessView::Read, r.oid)
            }
        }),
    decreases room(cursor),
{
    let nx = next_bind::<H>(hs, cursor);
    if nx.value == ValueView::EndOfMibView || sec.permits(AccessView::Read, nx.oid) {
    } else if !lex_lt(cursor, nx.oid) || cursor.len() > usize::MAX || nx.oid.len() > usize::MAX {
    } else {
        lemma_room_shrinks(cursor, nx.oid);
        getnext_hides_what_is_denied::<H>(hs, sec, start, nx.oid);
    }
}

/// Every OID in the answer to a GETBULK under access control was asked for or may be read.
pub proof fn getbulk_hides_what_is_denied<H: MibHandler>(
    hs: Seq<H::State>,
    sec: Access,
    request: PduView,
    i: int,
)
    requires
        sec.vacm is Some,
        0 <= i < bulk::<H>(hs, sec, request).len(),
    ensures
        names(request.variables).contains(bulk::<H>(hs, sec, request)[i].oid) || sec.permits(
            AccessView::Read,
            bulk::<H>(hs, sec, request)[i].oid,
        ),
{
    let asked = names(request.variables);
    let n = once_count(request) as int;
    let head = bulk_row::<H>(hs, sec, asked.take(n));
    if i < head.len() {
        let c = asked.take(n)[i];
        getnext_hides_what_is_denied::<H>(hs, sec, c, c);
        assert(asked[i] == c);
    } else {
        assert forall|k: int| 0 <= k < asked.skip(n).len() implies asked.contains(
            #[trigger] asked.skip(n)[k],
        ) by {
            assert(asked.skip(n)[k] == asked[k + n]);
        }
        lemma_rows_hide::<H>(
            hs,
            sec,
            asked,
            asked.skip(n),
            at_least_zero(request.error_index),
            i - head.len(),
        );
    }
}

proof fn lemma_rows_hide<H: MibHandler>(
    hs: Seq<H::State>,
    sec: Access,
    asked: Seq<Seq<u32>>,
    cursors: Seq<Seq<u32>>,
    reps: nat,
    i: int,
)
    requires
        sec.vacm is Some,
        0 <= i < bulk_rows::<H>(hs, sec, cursors, reps).len(),
        forall|k: int|
            0 <= k < cursors.len() ==> asked.contains(#[trigger] cursors[k]) || sec.permits(
                AccessView::Read,
                cursors[k],
            ),
    ensures
        asked.contains(bulk_rows::<H>(hs, sec, cursors, reps)[i].oid) || sec.permits(
            AccessView::Read,
            bulk_rows::<H>(hs, sec, cursors, reps)[i].oid,
        ),
    decreases reps,
{
    let row = bulk_row::<H>(hs, sec, cursors);
    assert forall|k: int| 0 <= k < row.len() implies asked.contains((#[trigger] row[k]).oid)
        || sec.permits(AccessView::Read, row[k].oid) by {
        getnext_hides_what_is_denied::<H>(hs, sec, cursors[k], cursors[k]);
        assert(row[k] == next_readable::<H>(hs, sec, cursors[k], cursors[k]));
        assert(asked.contains(cursors[k]) || sec.permits(AccessView::Read, cursors[k]));
    }
    if i < row.len() {
        assert(bulk_rows::<H>(hs, sec, cursors, reps)[i] == row[i]);
    } else {
        let next = names(row);
        assert forall|k: int| 0 <= k < next.len() implies asked.contains(#[trigger] next[k])
            || sec.permits(AccessView::Read, next[k]) by {
            assert(next[k] == row[k].oid);
        }
        lemma_rows_hide::<H>(hs, sec, asked, next, (reps - 1) as nat, i - row.len());
        assert(bulk_rows::<H>(hs, sec, cursors, reps)[i] == bulk_rows::<H>(
            hs,
            sec,
            next,
            (reps - 1) as nat,
        )[i - row.len()]);
    }
}

/// A handler whose reservation phase decides without changing anything.
pub open spec fn reserves_without_effect<H: MibHandler>(s: H::State) -> bool {
    forall|oid: Seq<u32>, value: ValueView| (#[trigger] H::prepare_of(s, oid, value)).0 == s
}

/// A SET is refused as a whole: where a binding is refused in the reservation phase, no handler
/// has changed. It asks of the handlers that reserving changes nothing.
pub proof fn refused_set_changes_nothing<H: MibHandler>(hs: Seq<H::State>, vars: Seq<VarBindView>)
    requires
        forall|i: int| 0 <= i < hs.len() ==> reserves_without_effect::<H>(#[trigger] hs[i]),
        reserve::<H>(hs, vars, 0).1 is Some,
    ensures
        transact::<H>(hs, vars).0 == hs,
        transact::<H>(hs, vars).1 == reserve::<H>(hs, vars, 0).1,
{
    lemma_reserve_keeps::<H>(hs, vars, 0);
}

proof fn lemma_reserve_keeps<H: MibHandler>(hs: Seq<H::State>, vars: Seq<VarBindView>, i: int)
    requires
        forall|k: int| 0 <= k < hs.len() ==> reserves_without_effect::<H>(#[trigger] hs[k]),
        0 <= i,
    ensures
        reserve::<H>(hs, vars, i).0 == hs,
    decreases vars.len() - i,
{
    if i < vars.len() {
        match owner::<H>(hs, vars[i].oid) {
            None => {},
            Some(k) => {
                lemma_owner_among::<H>(hs, vars[i].oid, hs.len());
                assert(reserves_without_effect::<H>(hs[k]));
                let out = H::prepare_of(hs[k], vars[i].oid, vars[i].value);
                assert(hs.update(k, out.0) =~= hs);
                lemma_reserve_keeps::<H>(hs, vars, i + 1);
            },
        }
    }
}

/// Only a SET changes anything.
pub proof fn reads_change_nothing<H: MibHandler>(
    hs: Seq<H::State>,
    request: PduView,
    sec: Access,
)
    requires
        request.pdu_type != PduType::SetRequest,
    ensures
        answer::<H>(hs, request, sec).0 == hs,
{
}

/// A handler that answers what was set, under the root it had.
pub open spec fn keeps_what_is_set<H: MibHandler>(s: H::State) -> bool {
    forall|oid: Seq<u32>, value: ValueView|
        {
            let done = #[trigger] H::commit_of(s, oid, value);
            done.1 is Ok ==> H::get_of(done.0, oid) == Some(value) && H::root_of(done.0)
                == H::root_of(s)
        }
}

/// A GET after a successful SET of one binding answers the value that was set. It asks of the
/// handlers that reserving changes nothing and that each keeps what is set in it.
pub proof fn get_answers_what_set_wrote<H: MibHandler>(
    hs: Seq<H::State>,
    oid: Seq<u32>,
    value: ValueView,
)
    requires
        forall|i: int| 0 <= i < hs.len() ==> reserves_without_effect::<H>(#[trigger] hs[i]),
        forall|i: int| 0 <= i < hs.len() ==> keeps_what_is_set::<H>(#[trigger] hs[i]),
        transact::<H>(hs, seq![VarBindView { oid, value }]).1 is None,
    ensures
        read::<H>(transact::<H>(hs, seq![VarBindView { oid, value }]).0, oid) == value,
{
    let vars = seq![VarBindView { oid, value }];
    lemma_reserve_keeps::<H>(hs, vars, 0);
    reveal_with_fuel(commit, 2);
    lemma_owner_among::<H>(hs, oid, hs.len());
    match owner::<H>(hs, oid) {
        None => {},
        Some(k) => {
            assert(keeps_what_is_set::<H>(hs[k]));
            let out = H::commit_of(hs[k], oid, value);
            let hs2 = hs.update(k, out.0);
            lemma_owner_same_roots::<H>(hs, hs2, oid, hs.len());
        },
    }
}

pub(crate) proof fn lemma_owner_same_roots<H: MibHandler>(
    a: Seq<H::State>,
    b: Seq<H::State>,
    oid: Seq<u32>,
    n: nat,
)
    requires
        n <= a.len(),
        same_roots::<H>(a, b),
    ensures
        owner_among::<H>(a, oid, n) == owner_among::<H>(b, oid, n),
    decreases n,
{
    lemma_owner_among::<H>(a, oid, n);
    if n > 0 {
        lemma_owner_same_roots::<H>(a, b, oid, (n - 1) as nat);
        lemma_owner_among::<H>(a, oid, (n - 1) as nat);
        assert(H::root_of(a[n - 1]) == H::root_of(b[n - 1]));
    }
}

/// An access control with nothing configured answers every request as if there were none. It
/// asks of the handlers that none answers the end of the view for an instance.
pub proof fn blank_access_control_is_permissive<H: MibHandler>(
    hs: Seq<H::State>,
    request: PduView,
    sec: Access,
)
    requires
        sec.vacm matches Some(v) && v.is_blank(),
        forall|i: int, oid: Seq<u32>|
            #![trigger H::next_of(hs[i], oid)]
            0 <= i < hs.len() ==> (H::next_of(hs[i], oid) matches Some(c) ==> c.1
                != ValueView::EndOfMibView),
    ensures
        answer::<H>(hs, request, sec) == answer::<H>(hs, request, open_access()),
{
    let none = open_access();
    assert forall|o: Seq<u32>, c: Seq<u32>| #[trigger]
        next_readable::<H>(hs, sec, o, c) == next_readable::<H>(hs, none, o, c) by {
        lemma_successor_not_end::<H>(hs, c);
    }
    assert forall|o: Seq<u32>| #[trigger] bulk_step::<H>(hs, sec, o) == bulk_step::<H>(
        hs,
        none,
        o,
    ) by {
        lemma_successor_not_end::<H>(hs, o);
    }
    assert forall|cs: Seq<Seq<u32>>| #[trigger] bulk_row::<H>(hs, sec, cs) == bulk_row::<H>(
        hs,
        none,
        cs,
    ) by {
        assert(bulk_row::<H>(hs, sec, cs) =~= bulk_row::<H>(hs, none, cs));
    }
    let vars = request.variables;
    lemma_none_denied(vars, sec, AccessView::Read, 0);
    lemma_none_denied(vars, sec, AccessView::Write, 0);
    lemma_none_denied(vars, none, AccessView::Read, 0);
    lemma_none_denied(vars, none, AccessView::Write, 0);
    let asked = names(vars);
    let n = once_count(request) as int;
    lemma_rows_same::<H>(
        hs,
        sec,
        asked.skip(n),
        at_least_zero(request.error_index),
    );
    assert(vars.map_values(|b: VarBindView| next_readable::<H>(hs, sec, b.oid, b.oid))
        =~= vars.map_values(|b: VarBindView| next_readable::<H>(hs, none, b.oid, b.oid)));
}

proof fn lemma_rows_same<H: MibHandler>(
    hs: Seq<H::State>,
    sec: Access,
    cursors: Seq<Seq<u32>>,
    reps: nat,
)
    requires
        forall|cs: Seq<Seq<u32>>| #[trigger]
            bulk_row::<H>(hs, sec, cs) == bulk_row::<H>(hs, open_access(), cs),
    ensures
        bulk_rows::<H>(hs, sec, cursors, reps) == bulk_rows::<H>(hs, open_access(), cursors, reps),
    decreases reps,
{
    if reps > 0 {
        let row = bulk_row::<H>(hs, sec, cursors);
        lemma_rows_same::<H>(hs, sec, names(row), (reps - 1) as nat);
    }
}

proof fn lemma_none_denied(vars: Seq<VarBindView>, sec: Access, view_type: AccessView, i: int)
    requires
        forall|o: Seq<u32>| #[trigger] sec.permits(view_type, o),
        0 <= i,
    ensures
        first_denied(vars, sec, view_type, i) is None,
    decreases vars.len() - i,
{
    if i < vars.len() {
        lemma_none_denied(vars, sec, view_type, i + 1);
    }
}

proof fn lemma_successor_not_end<H: MibHandler>(hs: Seq<H::State>, oid: Seq<u32>)
    requires
        forall|i: int, oid: Seq<u32>|
            #![trigger H::next_of(hs[i], oid)]
            0 <= i < hs.len() ==> (H::next_of(hs[i], oid) matches Some(c) ==> c.1
                != ValueView::EndOfMibView),
    ensures
        successor::<H>(hs, oid) matches Some(c) ==> c.1 != ValueView::EndOfMibView,
    decreases hs.len(),
{
    if hs.len() > 0 {
        let last = hs[hs.len() - 1];
        assert(H::next_of(last, oid) matches Some(c) ==> c.1 != ValueView::EndOfMibView);
        let t = hs.drop_last();
        assert forall|i: int, o: Seq<u32>| #![trigger H::next_of(t[i], o)]
            0 <= i < t.len() implies (H::next_of(t[i], o) matches Some(c) ==> c.1
            != ValueView::EndOfMibView) by {
            assert(t[i] == hs[i]);
            assert(H::next_of(hs[i], o) matches Some(c) ==> c.1 != ValueView::EndOfMibView);
        }
        lemma_successor_not_end::<H>(t, oid);
    }
}

} // verus!
