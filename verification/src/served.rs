//! Scalars that a registry serves, for those who read and change them there.

use vstd::prelude::*;

use crate::any_handler::AnyHandler;
use crate::any_handler::AnyState;
use crate::handler::MibHandler;
use crate::oid::Oid;
use crate::registry::owner;
use crate::registry::read;
use crate::registry::same_roots;
use crate::registry::Registry;
use crate::registry_laws::lemma_owner_among;
use crate::registry_laws::lemma_owner_same_roots;
use crate::scalar::ScalarHandler;
use crate::scalar::ScalarState;
use crate::value::Value;
use crate::value::ValueView;

verus! {

/// A scalar that a registry serves. It holds no value of its own: what is read and changed through
/// it is what the registry serves.
#[derive(Debug)]
pub struct ServedScalar {
    root: Oid,
}

impl View for ServedScalar {
    type V = Seq<u32>;

    closed spec fn view(&self) -> Seq<u32> {
        self.root@
    }
}

/// The roots of a list of scalars.
pub open spec fn served_roots(v: Seq<ServedScalar>) -> Seq<Seq<u32>> {
    v.map_values(|h: ServedScalar| h@)
}

/// The place of the scalar with the given root, if it is the handler that answers for its instance.
pub open spec fn served_at<P: MibHandler>(hs: Seq<AnyState<P>>, root: Seq<u32>) -> Option<int> {
    match owner::<AnyHandler<P>>(hs, root.push(0)) {
        Some(i) => match hs[i] {
            AnyState::Scalar(x) => if x.root == root {
                Some(i)
            } else {
                None
            },
            _ => None,
        },
        None => None,
    }
}

/// The states with another value of the scalar with the given root; the same if it is not served.
pub open spec fn with_value<P: MibHandler>(
    hs: Seq<AnyState<P>>,
    root: Seq<u32>,
    value: ValueView,
) -> Seq<AnyState<P>> {
    match served_at(hs, root) {
        Some(i) => hs.update(i, AnyState::Scalar(ScalarState { value, ..hs[i]->Scalar_0 })),
        None => hs,
    }
}

/// A GET answers the value that a served scalar was given.
pub proof fn given_value_is_answered<P: MibHandler>(
    hs: Seq<AnyState<P>>,
    root: Seq<u32>,
    value: ValueView,
)
    requires
        served_at(hs, root) is Some,
    ensures
        read::<AnyHandler<P>>(with_value(hs, root, value), root.push(0)) == value,
        served_at(with_value(hs, root, value), root) == served_at(hs, root),
{
    let n = with_value(hs, root, value);
    lemma_owner_among::<AnyHandler<P>>(hs, root.push(0), hs.len());
    assert(same_roots::<AnyHandler<P>>(hs, n));
    lemma_owner_same_roots::<AnyHandler<P>>(hs, n, root.push(0), hs.len());
}

/// Giving a scalar a value leaves the answers to all other GETs as they are.
pub proof fn other_answers_stay<P: MibHandler>(
    hs: Seq<AnyState<P>>,
    root: Seq<u32>,
    value: ValueView,
    oid: Seq<u32>,
)
    requires
        oid != root.push(0),
    ensures
        read::<AnyHandler<P>>(with_value(hs, root, value), oid) == read::<AnyHandler<P>>(hs, oid),
{
    let n = with_value(hs, root, value);
    lemma_owner_among::<AnyHandler<P>>(hs, root.push(0), hs.len());
    lemma_owner_among::<AnyHandler<P>>(hs, oid, hs.len());
    assert(same_roots::<AnyHandler<P>>(hs, n));
    lemma_owner_same_roots::<AnyHandler<P>>(hs, n, oid, hs.len());
}

impl ServedScalar {
    /// The scalar with the given root.
    pub fn new(root: Oid) -> (r: ServedScalar)
        ensures
            r@ == root@,
    {
        ServedScalar { root }
    }

    /// The root, without the final `.0`.
    pub fn root(&self) -> (r: &Oid)
        ensures
            r@ == self@,
    {
        &self.root
    }

    fn place<P: MibHandler>(&self, registry: &Registry<AnyHandler<P>>) -> (r: Option<usize>)
        ensures
            (match r {
                Some(i) => Some(i as int),
                None => None,
            }) == served_at(registry.states(), self@),
            r matches Some(i) ==> i < registry.states().len() && registry.states()[i as int]
                is Scalar,
    {
        match registry.owner_of(&self.root.child(0)) {
            Some(i) => {
                let hs = registry.handlers();
                assert(registry.states()[i as int] == hs@[i as int].state());
                match &hs[i] {
                    AnyHandler::Scalar(h) => {
                        if h.root().same(&self.root) {
                            Some(i)
                        } else {
                            None
                        }
                    },
                    _ => None,
                }
            },
            None => None,
        }
    }

    /// The handler that serves the scalar.
    pub fn handler<'a, P: MibHandler>(&self, registry: &'a Registry<AnyHandler<P>>) -> (r: Option<
        &'a ScalarHandler,
    >)
        ensures
            match served_at(registry.states(), self@) {
                Some(i) => r is Some && registry.states()[i] == AnyState::<P>::Scalar(
                    r->0.state(),
                ),
                None => r is None,
            },
    {
        match self.place(registry) {
            Some(i) => {
                let hs = registry.handlers();
                assert(registry.states()[i as int] == hs@[i as int].state());
                match &hs[i] {
                    AnyHandler::Scalar(h) => Some(h),
                    _ => None,
                }
            },
            None => None,
        }
    }

    /// The handler that serves the scalar, for whoever changes its value.
    pub fn handler_mut<'a, P: MibHandler>(
        &self,
        registry: &'a mut Registry<AnyHandler<P>>,
    ) -> (r: Option<&'a mut ScalarHandler>)
        ensures
            match served_at(old(registry).states(), self@) {
                Some(i) => {
                    &&& r is Some
                    &&& old(registry).states()[i] == AnyState::<P>::Scalar(r->0.state())
                    &&& final(registry).states() == old(registry).states().update(
                        i,
                        AnyState::Scalar(final(r->0).state()),
                    )
                    &&& old(registry).wf() && final(r->0).state().root == self@
                        ==> final(registry).wf()
                },
                None => r is None && *final(registry) == *old(registry),
            },
    {
        match self.place(registry) {
            Some(i) => match registry.handler_mut(i) {
                AnyHandler::Scalar(h) => Some(h),
                _ => None,
            },
            None => None,
        }
    }

    /// The value that is served, if the scalar is.
    pub fn get_value<P: MibHandler>(&self, registry: &Registry<AnyHandler<P>>) -> (r: Option<Value>)
        ensures
            r is Some <==> served_at(registry.states(), self@) is Some,
            r matches Some(v) ==> v@ == read::<AnyHandler<P>>(registry.states(), self@.push(0)),
    {
        match self.handler(registry) {
            Some(h) => Some(h.get_value()),
            None => None,
        }
    }

    /// Change the value that is served, whatever its type and whether or not SET is accepted; say
    /// whether the scalar is served.
    pub fn set_value<P: MibHandler>(
        &self,
        registry: &mut Registry<AnyHandler<P>>,
        value: Value,
    ) -> (r: bool)
        ensures
            r == (served_at(old(registry).states(), self@) is Some),
            final(registry).states() == with_value(old(registry).states(), self@, value@),
            r ==> read::<AnyHandler<P>>(final(registry).states(), self@.push(0)) == value@,
            old(registry).wf() ==> final(registry).wf(),
    {
        proof {
            if served_at(registry.states(), self@) is Some {
                given_value_is_answered(registry.states(), self@, value@);
            }
        }
        match self.handler_mut(registry) {
            Some(h) => {
                h.set_value(value);
                true
            },
            None => false,
        }
    }
}

} // verus!
