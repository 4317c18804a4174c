//! The contract between the registry and the objects that serve MIB subtrees.

use vstd::prelude::*;

use crate::oid::Oid;
use crate::pdu::ErrorStatus;
use crate::value::Value;
use crate::value::ValueView;

verus! {

/// One instance and its value, as answered to a GETNEXT.
#[derive(Debug, PartialEq, Eq)]
pub struct Reading {
    /// The instance.
    pub oid: Oid,
    /// Its value.
    pub value: Value,
}

/// A function of which nothing is known; `which` tells several such functions apart.
pub open spec fn unknown<A, B>(which: int, a: A) -> B {
    let f = arbitrary::<spec_fn(int, A) -> B>();
    f(which, a)
}

/// A handler serving one subtree.
///
/// A handler is a state machine: `state` is what its answers depend on, and the functions on
/// states say how each request is answered and what it changes.
///
/// What is proved of the registry holds of handlers that keep this contract. A handler that is
/// written in ordinary Rust leaves the functions on states out, so that nothing is known of them,
/// and must guarantee by itself that they exist:
/// - its `State` is rich enough to tell apart what answers differently; the type of the handler
///   itself always is;
/// - its root never changes;
/// - between two calls that take it by `&mut`, `get` and `get_next` answer one OID alike each time.
///   A handler whose answers come from elsewhere keeps those that it has given until then;
/// - what a call by `&mut` answers and leaves behind depends on nothing but the state before it,
///   the OID and the value. What such a call finds elsewhere counts as part of that state.
pub trait MibHandler: Sized {
    /// What the answers depend on.
    type State;

    /// The current state.
    open spec fn state(&self) -> Self::State {
        unknown(0, *self)
    }

    /// The root of the subtree served in state `s`.
    open spec fn root_of(s: Self::State) -> Seq<u32> {
        unknown(1, s)
    }

    /// The answer to a GET.
    open spec fn get_of(s: Self::State, oid: Seq<u32>) -> Option<ValueView> {
        unknown(2, (s, oid))
    }

    /// The answer to a GETNEXT.
    open spec fn next_of(s: Self::State, oid: Seq<u32>) -> Option<(Seq<u32>, ValueView)> {
        unknown(3, (s, oid))
    }

    /// The reservation phase of a SET: the next state and the verdict.
    open spec fn prepare_of(s: Self::State, oid: Seq<u32>, value: ValueView) -> (
        Self::State,
        Result<(), ErrorStatus>,
    ) {
        unknown(4, (s, oid, value))
    }

    /// The commit phase of a SET: the next state and the verdict.
    open spec fn commit_of(s: Self::State, oid: Seq<u32>, value: ValueView) -> (
        Self::State,
        Result<(), ErrorStatus>,
    ) {
        unknown(5, (s, oid, value))
    }

    /// The undo phase of a SET: the next state and the verdict.
    open spec fn undo_of(s: Self::State, oid: Seq<u32>, value: ValueView) -> (
        Self::State,
        Result<(), ErrorStatus>,
    ) {
        unknown(6, (s, oid, value))
    }

    /// The root of the subtree.
    fn root(&self) -> (r: &Oid)
        ensures
            r@ == Self::root_of(self.state()),
    ;

    /// Read the instance `oid`.
    fn get(&self, oid: &Oid) -> (r: Option<Value>)
        ensures
            r is Some <==> Self::get_of(self.state(), oid@) is Some,
            r matches Some(v) ==> Self::get_of(self.state(), oid@) == Some(v@),
    ;

    /// Read the first instance after `oid`.
    fn get_next(&self, oid: &Oid) -> (r: Option<Reading>)
        ensures
            r is Some <==> Self::next_of(self.state(), oid@) is Some,
            r matches Some(x) ==> Self::next_of(self.state(), oid@) == Some((x.oid@, x.value@)),
    ;

    /// Validate a SET without applying it.
    fn prepare_set(&mut self, oid: &Oid, value: &Value) -> (r: Result<(), ErrorStatus>)
        ensures
            (final(self).state(), r) == Self::prepare_of(old(self).state(), oid@, value@),
            Self::root_of(final(self).state()) == Self::root_of(old(self).state()),
    ;

    /// Apply a SET.
    fn commit_set(&mut self, oid: &Oid, value: &Value) -> (r: Result<(), ErrorStatus>)
        ensures
            (final(self).state(), r) == Self::commit_of(old(self).state(), oid@, value@),
            Self::root_of(final(self).state()) == Self::root_of(old(self).state()),
    ;

    /// Take back a committed SET.
    fn undo_set(&mut self, oid: &Oid, value: &Value) -> (r: Result<(), ErrorStatus>)
        ensures
            (final(self).state(), r) == Self::undo_of(old(self).state(), oid@, value@),
            Self::root_of(final(self).state()) == Self::root_of(old(self).state()),
    ;
}

} // verus!
