//! The serial number of SET requests.

use vstd::prelude::*;

use crate::handler::MibHandler;
use crate::handler::Reading;
use crate::oid::lex_lt;
use crate::oid::Oid;
use crate::pdu::ErrorStatus;
use crate::value::Value;
use crate::value::ValueView;

verus! {

/// The root of the serial number.
pub open spec fn set_serial_root() -> Seq<u32> {
    seq![1u32, 3, 6, 1, 6, 3, 1, 1, 6, 1]
}

/// The number of a value of one of the integer types; one that is too great is the greatest.
pub open spec fn integer_of(v: ValueView) -> Option<i64> {
    match v {
        ValueView::Integer(n) => Some(n),
        ValueView::Counter32(n) => Some(n as i64),
        ValueView::Gauge32(n) => Some(n as i64),
        ValueView::TimeTicks(n) => Some(n as i64),
        ValueView::Counter64(n) => Some(
            if n > i64::MAX as u64 {
                i64::MAX
            } else {
                n as i64
            },
        ),
        _ => None,
    }
}

/// The number of a value of one of the integer types.
pub fn integer_value(value: &Value) -> (r: Option<i64>)
    ensures
        r == integer_of(value@),
{
    match value {
        Value::Integer(n) => Some(*n),
        Value::Counter32(n) => Some(*n as i64),
        Value::Gauge32(n) => Some(*n as i64),
        Value::TimeTicks(n) => Some(*n as i64),
        Value::Counter64(n) => {
            if *n > i64::MAX as u64 {
                Some(i64::MAX)
            } else {
                Some(*n as i64)
            }
        },
        _ => None,
    }
}

/// The counter of SET requests. There is one of it: a handler that serves it has it, and lends it
/// to whoever counts.
#[derive(Debug)]
pub struct SerialCounter {
    count: i32,
}

impl SerialCounter {
    /// The count.
    pub closed spec fn count(self) -> i32 {
        self.count
    }

    /// A counter that begins at `count`.
    pub fn new(count: i32) -> (r: SerialCounter)
        ensures
            r.count() == count,
    {
        SerialCounter { count }
    }

    /// The count.
    pub fn load(&self) -> (r: i32)
        ensures
            r == self.count(),
    {
        self.count
    }

    /// Set the count.
    pub fn store(&mut self, count: i32)
        ensures
            final(self).count() == count,
    {
        self.count = count;
    }
}

/// Where the serial number stands.
#[derive(Debug)]
struct SerialPlace {
    root: Oid,
    instance: Oid,
}

impl SerialPlace {
    #[verifier::type_invariant]
    spec fn wf(self) -> bool {
        self.root@ == set_serial_root() && self.instance@ == set_serial_instance()
    }

    fn new() -> (r: SerialPlace) {
        let root = Oid::new(vec![1, 3, 6, 1, 6, 3, 1, 1, 6, 1]);
        assert(root@ =~= set_serial_root());
        let instance = root.child(0);
        SerialPlace { root, instance }
    }

    fn root(&self) -> (r: &Oid)
        ensures
            r@ == set_serial_root(),
    {
        proof {
            use_type_invariant(self);
        }
        &self.root
    }

    fn instance(&self) -> (r: &Oid)
        ensures
            r@ == set_serial_instance(),
    {
        proof {
            use_type_invariant(self);
        }
        &self.instance
    }
}

/// The handler of the serial number.
#[derive(Debug)]
pub struct SetSerialNoHandler {
    place: SerialPlace,
    counter: SerialCounter,
}

/// The state of a [`SetSerialNoHandler`].
#[verifier::ext_equal]
pub struct SerialState {
    pub value: i32,
}

/// The one instance.
pub open spec fn set_serial_instance() -> Seq<u32> {
    set_serial_root().push(0)
}

/// A number brought into the range of the serial number.
pub open spec fn serial_range(n: i64) -> i32 {
    if n < 0 {
        0
    } else if n > i32::MAX as i64 {
        i32::MAX
    } else {
        n as i32
    }
}

impl SetSerialNoHandler {
    /// A handler that serves `counter`.
    pub fn new(counter: SerialCounter) -> (r: SetSerialNoHandler)
        ensures
            r.state() == (SerialState { value: counter.count() }),
    {
        SetSerialNoHandler { place: SerialPlace::new(), counter }
    }

    /// A handler that serves a counter of its own, which begins at zero.
    pub fn with_fresh_counter() -> (r: SetSerialNoHandler)
        ensures
            r.state() == (SerialState { value: 0 }),
    {
        SetSerialNoHandler::new(SerialCounter::new(0))
    }

    /// The counter that is served.
    pub fn counter(&self) -> (r: &SerialCounter)
        ensures
            r.count() == self.state().value,
    {
        &self.counter
    }

    /// The counter that is served, for whoever counts: what is counted on it is what is served.
    pub fn counter_mut(&mut self) -> (r: &mut SerialCounter)
        ensures
            r.count() == old(self).state().value,
            final(self).state() == (SerialState { value: final(r).count() }),
    {
        &mut self.counter
    }
}

impl MibHandler for SetSerialNoHandler {
    type State = SerialState;

    closed spec fn state(&self) -> SerialState {
        SerialState { value: self.counter.count() }
    }

    open spec fn root_of(s: SerialState) -> Seq<u32> {
        set_serial_root()
    }

    open spec fn get_of(s: SerialState, oid: Seq<u32>) -> Option<ValueView> {
        if oid == set_serial_instance() {
            Some(ValueView::Integer(s.value as i64))
        } else {
            None
        }
    }

    open spec fn next_of(s: SerialState, oid: Seq<u32>) -> Option<(Seq<u32>, ValueView)> {
        if lex_lt(oid, set_serial_instance()) {
            Some((set_serial_instance(), ValueView::Integer(s.value as i64)))
        } else {
            None
        }
    }

    open spec fn prepare_of(s: SerialState, oid: Seq<u32>, value: ValueView) -> (
        SerialState,
        Result<(), ErrorStatus>,
    ) {
        if oid != set_serial_instance() {
            (s, Err(ErrorStatus::NoCreation))
        } else {
            match integer_of(value) {
                Some(n) => if 0 <= n <= i32::MAX {
                    (s, Ok(()))
                } else {
                    (s, Err(ErrorStatus::WrongValue))
                },
                None => (s, Err(ErrorStatus::WrongType)),
            }
        }
    }

    open spec fn commit_of(s: SerialState, oid: Seq<u32>, value: ValueView) -> (
        SerialState,
        Result<(), ErrorStatus>,
    ) {
        if oid != set_serial_instance() {
            (s, Err(ErrorStatus::NoCreation))
        } else {
            match integer_of(value) {
                Some(n) => (SerialState { value: serial_range(n) }, Ok(())),
                None => (s, Err(ErrorStatus::WrongType)),
            }
        }
    }

    open spec fn undo_of(s: SerialState, oid: Seq<u32>, value: ValueView) -> (
        SerialState,
        Result<(), ErrorStatus>,
    ) {
        (s, Ok(()))
    }

    fn root(&self) -> (r: &Oid) {
        self.place.root()
    }

    fn get(&self, oid: &Oid) -> (r: Option<Value>) {
        if oid.same(self.place.instance()) {
            Some(Value::Integer(self.counter.load() as i64))
        } else {
            None
        }
    }

    fn get_next(&self, oid: &Oid) -> (r: Option<Reading>) {
        if oid.before(self.place.instance()) {
            Some(
                Reading { oid: self.place.instance().clone(), value: Value::Integer(self.counter.load() as i64) },
            )
        } else {
            None
        }
    }

    fn prepare_set(&mut self, oid: &Oid, value: &Value) -> (r: Result<(), ErrorStatus>) {
        if !oid.same(self.place.instance()) {
            return Err(ErrorStatus::NoCreation);
        }
        match integer_value(value) {
            Some(n) => {
                if 0 <= n && n <= i32::MAX as i64 {
                    Ok(())
                } else {
                    Err(ErrorStatus::WrongValue)
                }
            },
            None => Err(ErrorStatus::WrongType),
        }
    }

    fn commit_set(&mut self, oid: &Oid, value: &Value) -> (r: Result<(), ErrorStatus>) {
        if !oid.same(self.place.instance()) {
            return Err(ErrorStatus::NoCreation);
        }
        match integer_value(value) {
            Some(n) => {
                let stored: i32 = if n < 0 {
                    0
                } else if n > i32::MAX as i64 {
                    i32::MAX
                } else {
                    n as i32
                };
                self.counter.store(stored);
                Ok(())
            },
            None => Err(ErrorStatus::WrongType),
        }
    }

    fn undo_set(&mut self, oid: &Oid, value: &Value) -> (r: Result<(), ErrorStatus>) {
        Ok(())
    }
}

/// The number after one more SET: the greatest is followed by zero.
pub open spec fn serial_after(v: i32) -> i32 {
    if v >= i32::MAX {
        0
    } else {
        (v + 1) as i32
    }
}

/// Count one more SET.
pub fn increment_set_serial(counter: &mut SerialCounter)
    ensures
        final(counter).count() == serial_after(old(counter).count()),
{
    let n: i32 = counter.load();
    if n >= i32::MAX {
        counter.store(0);
    } else {
        counter.store(n + 1);
    }
}

/// A serial number that is set or counted on stays in its range.
pub proof fn serial_stays_in_range(s: SerialState, oid: Seq<u32>, value: ValueView)
    requires
        s.value >= 0,
    ensures
        SetSerialNoHandler::commit_of(s, oid, value).0.value >= 0,
        serial_after(s.value) >= 0,
{
}

/// A number that was accepted for a SET is what a GET then answers.
pub proof fn serial_reads_what_was_set(s: SerialState, oid: Seq<u32>, n: i64)
    requires
        SetSerialNoHandler::prepare_of(s, oid, ValueView::Integer(n)).1 is Ok,
    ensures
        SetSerialNoHandler::get_of(
            SetSerialNoHandler::commit_of(s, oid, ValueView::Integer(n)).0,
            oid,
        ) == Some(ValueView::Integer(n)),
{
}

/// The handler of the serial number, with a counter of its own that begins at zero.
pub fn set_serial_no_handler() -> (r: SetSerialNoHandler)
    ensures
        r.state() == (SerialState { value: 0 }),
{
    SetSerialNoHandler::with_fresh_counter()
}

/// The handler of the serial number that serves `counter`, and lends it to whoever counts.
pub fn set_serial_no_handler_with(counter: SerialCounter) -> (r: SetSerialNoHandler)
    ensures
        r.state() == (SerialState { value: counter.count() }),
{
    SetSerialNoHandler::new(counter)
}

} // verus!
