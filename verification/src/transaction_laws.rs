//! What holds of a SET transaction as a whole.

use vstd::prelude::*;

use crate::any_handler::AnyHandler;
use crate::any_handler::AnyState;
use crate::handler::MibHandler;
use crate::pdu::ErrorStatus;
use crate::registry::commit;
use crate::registry::owner;
use crate::registry::read;
use crate::registry::reserve;
use crate::registry::same_roots;
use crate::registry::status_of;
use crate::registry::transact;
use crate::registry_laws::lemma_owner_among;
use crate::registry_laws::lemma_owner_same_roots;
use crate::scalar::lemma_find_replaced;
use crate::value::ValueView;
use crate::value::VarBindView;

verus! {

/// Whether a handler in state `s` that is to be set at `oid` and at `p`, and would commit either,
/// commits the first after the second: that leaves a good state with the same root.
pub open spec fn commits_after<H: MibHandler>(
    good: spec_fn(H::State) -> bool,
    s: H::State,
    oid: Seq<u32>,
    value: ValueView,
    p: Seq<u32>,
    w: ValueView,
) -> bool {
    good(s) && H::commit_of(s, oid, value).1 is Ok && H::commit_of(s, p, w).1 is Ok ==> {
        let after = H::commit_of(s, p, w).0;
        &&& good(after)
        &&& H::root_of(after) == H::root_of(s)
        &&& H::commit_of(after, oid, value).1 is Ok
    }
}

/// Whether handlers in `good` states commit whatever they have reserved, in any number and order:
/// reserving changes nothing, what was reserved commits, and what would have committed still does
/// after another commit.
pub open spec fn settles<H: MibHandler>(good: spec_fn(H::State) -> bool) -> bool {
    &&& forall|s: H::State, oid: Seq<u32>, value: ValueView|
        #![trigger H::prepare_of(s, oid, value)]
        good(s) ==> {
            let out = H::prepare_of(s, oid, value);
            out.0 == s && (status_of(out.1) == ErrorStatus::NoError ==> H::commit_of(
                s,
                oid,
                value,
            ).1 is Ok)
        }
    &&& forall|s: H::State, oid: Seq<u32>, value: ValueView, p: Seq<u32>, w: ValueView| #[trigger]
        commits_after::<H>(good, s, oid, value, p, w)
}

/// Whether a commit in state `s` gives the instance `oid` its value, and leaves `p` as it is if it
/// is another.
pub open spec fn changes_one<H: MibHandler>(
    good: spec_fn(H::State) -> bool,
    s: H::State,
    oid: Seq<u32>,
    value: ValueView,
    p: Seq<u32>,
) -> bool {
    good(s) && H::commit_of(s, oid, value).1 is Ok ==> H::get_of(
        H::commit_of(s, oid, value).0,
        p,
    ) == if p == oid {
        Some(value)
    } else {
        H::get_of(s, p)
    }
}

/// Whether a commit in a `good` state gives the instance its value, and leaves the other instances
/// as they are.
pub open spec fn remembers<H: MibHandler>(good: spec_fn(H::State) -> bool) -> bool {
    forall|s: H::State, oid: Seq<u32>, value: ValueView, p: Seq<u32>| #[trigger]
        changes_one::<H>(good, s, oid, value, p)
}

/// The handlers that the bindings are for, where there are any, are in `good` states.
pub open spec fn owners_are<H: MibHandler>(
    hs: Seq<H::State>,
    vars: Seq<VarBindView>,
    good: spec_fn(H::State) -> bool,
) -> bool {
    forall|i: int|
        #![trigger vars[i]]
        0 <= i < vars.len() ==> (owner::<H>(hs, vars[i].oid) matches Some(k) ==> good(hs[k]))
}

proof fn lemma_reserve_without_effect<H: MibHandler>(
    hs: Seq<H::State>,
    vars: Seq<VarBindView>,
    good: spec_fn(H::State) -> bool,
    i: int,
)
    requires
        settles::<H>(good),
        owners_are::<H>(hs, vars, good),
        0 <= i,
    ensures
        reserve::<H>(hs, vars, i).0 == hs,
        reserve::<H>(hs, vars, i).1 is None ==> forall|j: int|
            #![trigger vars[j]]
            i <= j < vars.len() ==> {
                &&& owner::<H>(hs, vars[j].oid) matches Some(k)
                &&& H::commit_of(hs[k], vars[j].oid, vars[j].value).1 is Ok
            },
    decreases vars.len() - i,
{
    if i < vars.len() {
        let b = vars[i];
        lemma_owner_among::<H>(hs, b.oid, hs.len());
        match owner::<H>(hs, b.oid) {
            None => {},
            Some(k) => {
                assert(good(hs[k]));
                let out = H::prepare_of(hs[k], b.oid, b.value);
                assert(hs.update(k, out.0) =~= hs);
                lemma_reserve_without_effect::<H>(hs, vars, good, i + 1);
            },
        }
    }
}

/// After the first `n` commits every handler is where it was, none has failed, every other binding
/// still commits, and the values are as the last binding of each instance says.
proof fn lemma_commits<H: MibHandler>(
    hs: Seq<H::State>,
    vars: Seq<VarBindView>,
    good: spec_fn(H::State) -> bool,
    n: nat,
)
    requires
        settles::<H>(good),
        owners_are::<H>(hs, vars, good),
        n <= vars.len(),
        forall|j: int|
            #![trigger vars[j]]
            0 <= j < vars.len() ==> {
                &&& owner::<H>(hs, vars[j].oid) matches Some(k)
                &&& H::commit_of(hs[k], vars[j].oid, vars[j].value).1 is Ok
            },
    ensures
        ({
            let c = commit::<H>(hs, vars, n);
            &&& c.failed is None
            &&& same_roots::<H>(hs, c.hs)
            &&& forall|j: int|
                #![trigger vars[j]]
                0 <= j < vars.len() ==> {
                    &&& owner::<H>(c.hs, vars[j].oid) == owner::<H>(hs, vars[j].oid)
                    &&& owner::<H>(c.hs, vars[j].oid) matches Some(k)
                    &&& good(c.hs[k])
                    &&& H::commit_of(c.hs[k], vars[j].oid, vars[j].value).1 is Ok
                }
        }),
    decreases n,
{
    if n > 0 {
        let i = n - 1;
        lemma_commits::<H>(hs, vars, good, i as nat);
        let before = commit::<H>(hs, vars, i as nat);
        let b = vars[i];
        lemma_owner_among::<H>(before.hs, b.oid, before.hs.len());
        let k = owner::<H>(before.hs, b.oid)->0;
        let out = H::commit_of(before.hs[k], b.oid, b.value);
        let c = commit::<H>(hs, vars, n);
        assert(c.hs == before.hs.update(k, out.0));
        assert(commits_after::<H>(good, before.hs[k], b.oid, b.value, b.oid, b.value));
        assert(same_roots::<H>(hs, c.hs)) by {
            assert forall|m: int|
                #![trigger hs[m]]
                #![trigger c.hs[m]]
                0 <= m < hs.len() implies H::root_of(hs[m]) == H::root_of(c.hs[m]) by {
                assert(H::root_of(hs[m]) == H::root_of(before.hs[m]));
            }
        }
        assert forall|j: int| #![trigger vars[j]] 0 <= j < vars.len() implies {
            &&& owner::<H>(c.hs, vars[j].oid) == owner::<H>(hs, vars[j].oid)
            &&& owner::<H>(c.hs, vars[j].oid) matches Some(m)
            &&& good(c.hs[m])
            &&& H::commit_of(c.hs[m], vars[j].oid, vars[j].value).1 is Ok
        } by {
            let d = vars[j];
            lemma_owner_same_roots::<H>(hs, c.hs, d.oid, hs.len());
            let m = owner::<H>(before.hs, d.oid)->0;
            lemma_owner_among::<H>(before.hs, d.oid, before.hs.len());
            if m == k {
                assert(commits_after::<H>(good, before.hs[k], d.oid, d.value, b.oid, b.value));
            } else {
                assert(c.hs[m] == before.hs[m]);
            }
        }
    }
}

proof fn lemma_commits_remember<H: MibHandler>(
    hs: Seq<H::State>,
    vars: Seq<VarBindView>,
    good: spec_fn(H::State) -> bool,
    n: nat,
    i: int,
)
    requires
        settles::<H>(good),
        remembers::<H>(good),
        owners_are::<H>(hs, vars, good),
        0 <= i < n <= vars.len(),
        forall|j: int|
            #![trigger vars[j]]
            0 <= j < vars.len() ==> {
                &&& owner::<H>(hs, vars[j].oid) matches Some(k)
                &&& H::commit_of(hs[k], vars[j].oid, vars[j].value).1 is Ok
            },
        forall|j: int| i < j < n ==> (#[trigger] vars[j]).oid != vars[i].oid,
    ensures
        read::<H>(commit::<H>(hs, vars, n).hs, vars[i].oid) == vars[i].value,
    decreases n,
{
    let last = n - 1;
    let b = vars[last];
    lemma_commits::<H>(hs, vars, good, last as nat);
    lemma_commits::<H>(hs, vars, good, n);
    let before = commit::<H>(hs, vars, last as nat);
    let c = commit::<H>(hs, vars, n);
    let k = owner::<H>(before.hs, b.oid)->0;
    lemma_owner_among::<H>(before.hs, b.oid, before.hs.len());
    let out = H::commit_of(before.hs[k], b.oid, b.value);
    assert(c.hs == before.hs.update(k, out.0));
    let d = vars[i];
    let m = owner::<H>(before.hs, d.oid)->0;
    lemma_owner_among::<H>(before.hs, d.oid, before.hs.len());
    if i < last {
        lemma_commits_remember::<H>(hs, vars, good, last as nat, i);
        if m == k {
            assert(changes_one::<H>(good, before.hs[k], b.oid, b.value, d.oid));
        }
    } else {
        assert(changes_one::<H>(good, before.hs[k], b.oid, b.value, d.oid));
    }
}

/// A SET is all or nothing: where a binding fails, no handler has changed. It asks of the handlers
/// that the bindings are for that they commit what they have reserved.
pub proof fn set_is_all_or_nothing<H: MibHandler>(
    hs: Seq<H::State>,
    vars: Seq<VarBindView>,
    good: spec_fn(H::State) -> bool,
)
    requires
        settles::<H>(good),
        owners_are::<H>(hs, vars, good),
    ensures
        transact::<H>(hs, vars).1 is Some ==> transact::<H>(hs, vars).0 == hs,
        transact::<H>(hs, vars).1 is None <==> reserve::<H>(hs, vars, 0).1 is None,
{
    lemma_reserve_without_effect::<H>(hs, vars, good, 0);
    if reserve::<H>(hs, vars, 0).1 is None {
        lemma_commits::<H>(hs, vars, good, vars.len());
    }
}

/// After a successful SET a GET of each instance answers the last value that was given for it. It
/// asks of the handlers that the bindings are for that they commit what they have reserved and
/// remember it.
pub proof fn set_values_read_back<H: MibHandler>(
    hs: Seq<H::State>,
    vars: Seq<VarBindView>,
    good: spec_fn(H::State) -> bool,
    i: int,
)
    requires
        settles::<H>(good),
        remembers::<H>(good),
        owners_are::<H>(hs, vars, good),
        transact::<H>(hs, vars).1 is None,
        0 <= i < vars.len(),
        forall|j: int| i < j < vars.len() ==> (#[trigger] vars[j]).oid != vars[i].oid,
    ensures
        read::<H>(transact::<H>(hs, vars).0, vars[i].oid) == vars[i].value,
{
    lemma_reserve_without_effect::<H>(hs, vars, good, 0);
    lemma_commits::<H>(hs, vars, good, vars.len());
    lemma_commits_remember::<H>(hs, vars, good, vars.len(), i);
}

/// Whether a state is that of a handler of the library whose instances can be set.
pub open spec fn is_settable<P: MibHandler>(s: AnyState<P>) -> bool {
    match s {
        AnyState::Table(_) => false,
        AnyState::Live(_) => false,
        AnyState::Outside(_) => false,
        _ => true,
    }
}

/// Whether a state is that of a scalar or a map.
pub open spec fn is_stored<P: MibHandler>(s: AnyState<P>) -> bool {
    s is Scalar || s is Instances
}

/// The handlers of the library whose instances can be set commit what they have reserved.
pub proof fn settable_handlers_settle<P: MibHandler>()
    ensures
        settles::<AnyHandler<P>>(|s: AnyState<P>| is_settable(s)),
{
    let good = |s: AnyState<P>| is_settable(s);
    assert forall|s: AnyState<P>, oid: Seq<u32>, value: ValueView, p: Seq<u32>, w: ValueView|
        #[trigger] commits_after::<AnyHandler<P>>(good, s, oid, value, p, w) by {
        if let AnyState::Instances(x) = s {
            lemma_find_replaced(x.entries, p, w, oid);
        }
    }
}

/// Scalars and maps commit what they have reserved and remember it.
pub proof fn stored_values_are_remembered<P: MibHandler>()
    ensures
        settles::<AnyHandler<P>>(|s: AnyState<P>| is_stored(s)),
        remembers::<AnyHandler<P>>(|s: AnyState<P>| is_stored(s)),
{
    let good = |s: AnyState<P>| is_stored(s);
    assert forall|s: AnyState<P>, oid: Seq<u32>, value: ValueView, p: Seq<u32>, w: ValueView|
        #[trigger] commits_after::<AnyHandler<P>>(good, s, oid, value, p, w) by {
        if let AnyState::Instances(x) = s {
            lemma_find_replaced(x.entries, p, w, oid);
        }
    }
    assert forall|s: AnyState<P>, oid: Seq<u32>, value: ValueView, p: Seq<u32>| #[trigger]
        changes_one::<AnyHandler<P>>(good, s, oid, value, p) by {
        if let AnyState::Instances(x) = s {
            lemma_find_replaced(x.entries, oid, value, p);
        }
    }
}

} // verus!
