//! Handlers serving values held in memory: a scalar, a map of instances, and a table whose
//! cells are supplied from outside.

use vstd::prelude::*;

use crate::cells::cell_map;
use crate::cells::cells;
use crate::cells::collect_cells;
use crate::cells::copy_cells;
use crate::cells::find;
use crate::cells::find_is_map_lookup;
use crate::cells::find_next;
use crate::cells::is_increasing;
use crate::cells::is_sorted;
use crate::cells::lemma_increasing_sorted;
use crate::cells::lookup;
use crate::cells::lookup_next;
use crate::cells::put_cell;
use crate::cells::sort_cells;
use crate::cells::sort_is_unique;
use crate::cells::sort_of;
use crate::cells::table_is_unique;
use crate::cells::table_of;
use crate::cells::CellView;
use crate::handler::MibHandler;
use crate::handler::Reading;
use crate::oid::lex_lt;
use crate::oid::Oid;
use crate::pdu::ErrorStatus;
use crate::value::Value;
use crate::value::ValueView;

verus! {

/// How long a snapshot of cells is served before it is built anew, in milliseconds.
pub const SNAPSHOT_TTL_MS: u64 = 900;

/// The SMI families within which a SET may replace one value by another.
#[derive(Clone, Copy, Debug, PartialEq, Eq, Structural)]
pub enum TypeFamily {
    /// Integer, Counter32, Gauge32, TimeTicks and Counter64.
    Integers,
    /// OctetString, Oid, IpAddress and Opaque.
    Octets,
    /// NULL and the exception markers, which are never a SET target.
    Unsettable,
}

/// The family of a value.
pub open spec fn family_of(v: ValueView) -> TypeFamily {
    match v {
        ValueView::Integer(_) => TypeFamily::Integers,
        ValueView::Counter32(_) => TypeFamily::Integers,
        ValueView::Gauge32(_) => TypeFamily::Integers,
        ValueView::TimeTicks(_) => TypeFamily::Integers,
        ValueView::Counter64(_) => TypeFamily::Integers,
        ValueView::OctetString(_) => TypeFamily::Octets,
        ValueView::Oid(_) => TypeFamily::Octets,
        ValueView::IpAddress(_) => TypeFamily::Octets,
        ValueView::Opaque(_) => TypeFamily::Octets,
        _ => TypeFamily::Unsettable,
    }
}

/// Whether a SET may replace `current` by `new`: both are of the same family, and it is one
/// that can be set.
pub open spec fn compatible(current: ValueView, new: ValueView) -> bool {
    family_of(current) == family_of(new) && family_of(new) != TypeFamily::Unsettable
}

fn family(v: &Value) -> (r: TypeFamily)
    ensures
        r == family_of(v@),
{
    match v {
        Value::Integer(_) => TypeFamily::Integers,
        Value::Counter32(_) => TypeFamily::Integers,
        Value::Gauge32(_) => TypeFamily::Integers,
        Value::TimeTicks(_) => TypeFamily::Integers,
        Value::Counter64(_) => TypeFamily::Integers,
        Value::OctetString(_) => TypeFamily::Octets,
        Value::Oid(_) => TypeFamily::Octets,
        Value::IpAddress(_) => TypeFamily::Octets,
        Value::Opaque(_) => TypeFamily::Octets,
        _ => TypeFamily::Unsettable,
    }
}

/// Whether a SET may replace `current` by `new`.
pub fn types_compatible(current: &Value, new: &Value) -> (r: bool)
    ensures
        r == compatible(current@, new@),
{
    let a = family(current);
    let b = family(new);
    a == b && b != TypeFamily::Unsettable
}

/// Whether a snapshot built `elapsed_ms` ago is still served.
pub fn snapshot_is_fresh(elapsed_ms: u64) -> (r: bool)
    ensures
        r == (elapsed_ms < SNAPSHOT_TTL_MS),
{
    elapsed_ms < SNAPSHOT_TTL_MS
}

/// A read-only handler over a snapshot of cells. Whoever owns the live data supplies the
/// cells and replaces them when they are stale.
#[derive(Debug)]
pub struct FnHandler {
    root: Oid,
    cells: Vec<(Oid, Value)>,
}

/// The state of a [`FnHandler`].
#[verifier::ext_equal]
pub struct FnState {
    pub root: Seq<u32>,
    pub cells: Seq<CellView>,
}

/// The state of a handler that serves the cells `provided`.
pub open spec fn sorted_state(root: Seq<u32>, provided: Seq<CellView>) -> FnState {
    FnState { root, cells: sort_of(provided) }
}

/// The state of a handler that serves one value at `root.0`.
pub open spec fn scalar_state(root: Seq<u32>, value: ValueView) -> FnState {
    FnState { root, cells: seq![(root.push(0), value)] }
}

/// The state of a handler that serves the table that `provided` makes.
pub open spec fn table_state(root: Seq<u32>, provided: Seq<CellView>) -> FnState {
    FnState { root, cells: table_of(provided) }
}

impl FnHandler {
    /// The cells are kept sorted.
    #[verifier::type_invariant]
    spec fn wf(self) -> bool {
        is_sorted(cells(self.cells@))
    }

    /// A handler rooted at `root` serving `provided`.
    pub fn new(root: Oid, provided: Vec<(Oid, Value)>) -> (r: FnHandler)
        ensures
            r.state() == sorted_state(root@, cells(provided@)),
    {
        let sorted = sort_cells(provided);
        proof {
            sort_is_unique(cells(sorted@), cells(provided@));
        }
        FnHandler { root, cells: sorted }
    }

    /// A handler serving the one value `value` at `root.0`.
    pub fn scalar(root: Oid, value: Value) -> (r: FnHandler)
        ensures
            r.state() == scalar_state(root@, value@),
    {
        let instance = root.child(0);
        let mut provided: Vec<(Oid, Value)> = Vec::new();
        let ghost c = (instance@, value@);
        provided.push((instance, value));
        assert(cells(provided@) =~= seq![c]);
        assert(is_sorted(cells(provided@)));
        FnHandler { root, cells: provided }
    }

    /// A handler rooted at `root` serving nothing.
    pub fn empty(root: Oid) -> (r: FnHandler)
        ensures
            r.state() == (FnState { root: root@, cells: seq![] }),
    {
        let none: Vec<(Oid, Value)> = Vec::new();
        assert(cells(none@) =~= Seq::<CellView>::empty());
        FnHandler { root, cells: none }
    }

    /// A handler rooted at `root` serving the table that `provided` makes: in increasing order,
    /// later cells replacing earlier ones of the same OID.
    pub fn table(root: Oid, provided: Vec<(Oid, Value)>) -> (r: FnHandler)
        ensures
            r.state() == table_state(root@, cells(provided@)),
    {
        let collected = collect_cells(provided);
        proof {
            lemma_increasing_sorted(cells(collected@));
            table_is_unique(cells(collected@), cells(provided@));
        }
        FnHandler { root, cells: collected }
    }

    /// Serve `provided` from now on.
    pub fn refresh(&mut self, provided: Vec<(Oid, Value)>)
        ensures
            final(self).state() == sorted_state(old(self).state().root, cells(provided@)),
    {
        let sorted = sort_cells(provided);
        proof {
            sort_is_unique(cells(sorted@), cells(provided@));
        }
        self.cells = sorted;
    }
}

impl MibHandler for FnHandler {
    type State = FnState;

    closed spec fn state(&self) -> FnState {
        FnState { root: self.root@, cells: cells(self.cells@) }
    }

    open spec fn root_of(s: FnState) -> Seq<u32> {
        s.root
    }

    open spec fn get_of(s: FnState, oid: Seq<u32>) -> Option<ValueView> {
        find(s.cells, oid)
    }

    open spec fn next_of(s: FnState, oid: Seq<u32>) -> Option<(Seq<u32>, ValueView)> {
        find_next(s.cells, oid)
    }

    open spec fn prepare_of(s: FnState, oid: Seq<u32>, value: ValueView) -> (
        FnState,
        Result<(), ErrorStatus>,
    ) {
        (s, Ok(()))
    }

    open spec fn commit_of(s: FnState, oid: Seq<u32>, value: ValueView) -> (
        FnState,
        Result<(), ErrorStatus>,
    ) {
        (s, Err(ErrorStatus::NotWritable))
    }

    open spec fn undo_of(s: FnState, oid: Seq<u32>, value: ValueView) -> (
        FnState,
        Result<(), ErrorStatus>,
    ) {
        (s, Ok(()))
    }

    fn root(&self) -> (r: &Oid) {
        &self.root
    }

    fn get(&self, oid: &Oid) -> (r: Option<Value>) {
        proof {
            use_type_invariant(self);
        }
        lookup(self.cells.as_slice(), oid)
    }

    fn get_next(&self, oid: &Oid) -> (r: Option<Reading>) {
        proof {
            use_type_invariant(self);
        }
        match lookup_next(self.cells.as_slice(), oid) {
            Some((oid, value)) => Some(Reading { oid, value }),
            None => None,
        }
    }

    fn prepare_set(&mut self, oid: &Oid, value: &Value) -> (r: Result<(), ErrorStatus>) {
        Ok(())
    }

    fn commit_set(&mut self, oid: &Oid, value: &Value) -> (r: Result<(), ErrorStatus>) {
        Err(ErrorStatus::NotWritable)
    }

    fn undo_set(&mut self, oid: &Oid, value: &Value) -> (r: Result<(), ErrorStatus>) {
        Ok(())
    }
}

/// A single scalar object served at `root.0`.
#[derive(Debug)]
pub struct ScalarHandler {
    root: Oid,
    instance: Oid,
    value: Value,
    writable: bool,
}

/// The state of a [`ScalarHandler`].
#[verifier::ext_equal]
pub struct ScalarState {
    pub root: Seq<u32>,
    pub value: ValueView,
    pub writable: bool,
}

impl ScalarState {
    /// The one instance served.
    pub open spec fn instance(self) -> Seq<u32> {
        self.root.push(0)
    }

    /// The outcome of setting `oid` to `value` with no regard to its type.
    pub open spec fn set_to(self, oid: Seq<u32>, value: ValueView) -> (
        ScalarState,
        Result<(), ErrorStatus>,
    ) {
        if !self.writable {
            (self, Err(ErrorStatus::NotWritable))
        } else if oid != self.instance() {
            (self, Err(ErrorStatus::NoCreation))
        } else {
            (ScalarState { value, ..self }, Ok(()))
        }
    }
}

impl ScalarHandler {
    /// The instance is the root extended by zero.
    #[verifier::type_invariant]
    spec fn wf(self) -> bool {
        self.instance@ == self.root@.push(0)
    }

    /// A read-only scalar served at `root.0`.
    pub fn new(root: Oid, value: Value) -> (r: ScalarHandler)
        ensures
            r.state() == (ScalarState { root: root@, value: value@, writable: false }),
    {
        let instance = root.child(0);
        ScalarHandler { root, instance, value, writable: false }
    }

    /// This scalar, accepting SET requests.
    pub fn writable(self) -> (r: ScalarHandler)
        ensures
            r.state() == (ScalarState { writable: true, ..self.state() }),
    {
        proof {
            use_type_invariant(&self);
        }
        let ScalarHandler { root, instance, value, writable: _ } = self;
        ScalarHandler { root, instance, value, writable: true }
    }

    /// The root, without the final `.0`.
    pub fn root(&self) -> (r: &Oid)
        ensures
            r@ == self.state().root,
    {
        &self.root
    }

    /// Whether SET is accepted.
    pub fn is_writable(&self) -> (r: bool)
        ensures
            r == self.state().writable,
    {
        self.writable
    }

    /// The current value.
    pub fn get_value(&self) -> (r: Value)
        ensures
            r@ == self.state().value,
    {
        self.value.clone()
    }

    /// Replace the current value, whatever its type and whether or not SET is accepted.
    pub fn set_value(&mut self, value: Value)
        ensures
            final(self).state() == (ScalarState { value: value@, ..old(self).state() }),
    {
        proof {
            use_type_invariant(&*self);
        }
        self.value = value;
    }

    /// Set the value in one step, with no check of its type.
    pub fn set(&mut self, oid: &Oid, value: &Value) -> (r: Result<(), ErrorStatus>)
        ensures
            (final(self).state(), r) == old(self).state().set_to(oid@, value@),
    {
        proof {
            use_type_invariant(&*self);
        }
        if !self.writable {
            return Err(ErrorStatus::NotWritable);
        }
        if !oid.same(&self.instance) {
            return Err(ErrorStatus::NoCreation);
        }
        self.value = value.clone();
        Ok(())
    }
}

impl MibHandler for ScalarHandler {
    type State = ScalarState;

    closed spec fn state(&self) -> ScalarState {
        ScalarState { root: self.root@, value: self.value@, writable: self.writable }
    }

    open spec fn root_of(s: ScalarState) -> Seq<u32> {
        s.root
    }

    open spec fn get_of(s: ScalarState, oid: Seq<u32>) -> Option<ValueView> {
        if oid == s.instance() {
            Some(s.value)
        } else {
            None
        }
    }

    open spec fn next_of(s: ScalarState, oid: Seq<u32>) -> Option<(Seq<u32>, ValueView)> {
        if lex_lt(oid, s.instance()) {
            Some((s.instance(), s.value))
        } else {
            None
        }
    }

    open spec fn prepare_of(s: ScalarState, oid: Seq<u32>, value: ValueView) -> (
        ScalarState,
        Result<(), ErrorStatus>,
    ) {
        if !s.writable {
            (s, Err(ErrorStatus::NotWritable))
        } else if oid != s.instance() {
            (s, Err(ErrorStatus::NoCreation))
        } else if !compatible(s.value, value) {
            (s, Err(ErrorStatus::WrongType))
        } else {
            (s, Ok(()))
        }
    }

    open spec fn commit_of(s: ScalarState, oid: Seq<u32>, value: ValueView) -> (
        ScalarState,
        Result<(), ErrorStatus>,
    ) {
        s.set_to(oid, value)
    }

    open spec fn undo_of(s: ScalarState, oid: Seq<u32>, value: ValueView) -> (
        ScalarState,
        Result<(), ErrorStatus>,
    ) {
        (s, Ok(()))
    }

    fn root(&self) -> (r: &Oid) {
        &self.root
    }

    fn get(&self, oid: &Oid) -> (r: Option<Value>) {
        proof {
            use_type_invariant(self);
        }
        if oid.same(&self.instance) {
            Some(self.value.clone())
        } else {
            None
        }
    }

    fn get_next(&self, oid: &Oid) -> (r: Option<Reading>) {
        proof {
            use_type_invariant(self);
        }
        if oid.before(&self.instance) {
            Some(Reading { oid: self.instance.clone(), value: self.value.clone() })
        } else {
            None
        }
    }

    fn prepare_set(&mut self, oid: &Oid, value: &Value) -> (r: Result<(), ErrorStatus>) {
        proof {
            use_type_invariant(&*self);
        }
        if !self.writable {
            return Err(ErrorStatus::NotWritable);
        }
        if !oid.same(&self.instance) {
            return Err(ErrorStatus::NoCreation);
        }
        if !types_compatible(&self.value, value) {
            return Err(ErrorStatus::WrongType);
        }
        Ok(())
    }

    fn commit_set(&mut self, oid: &Oid, value: &Value) -> (r: Result<(), ErrorStatus>) {
        self.set(oid, value)
    }

    fn undo_set(&mut self, oid: &Oid, value: &Value) -> (r: Result<(), ErrorStatus>) {
        Ok(())
    }
}

/// A handler over an arbitrary set of instances held in memory.
#[derive(Debug)]
pub struct MapHandler {
    root: Oid,
    entries: Vec<(Oid, Value)>,
    writable: bool,
}

/// The state of a [`MapHandler`]: its instances in increasing order.
#[verifier::ext_equal]
pub struct MapState {
    pub root: Seq<u32>,
    pub entries: Seq<CellView>,
    pub writable: bool,
}

impl MapState {
    /// The instances and their values.
    pub open spec fn map(self) -> Map<Seq<u32>, ValueView> {
        cell_map(self.entries)
    }
}

/// `s` with the value of each cell named `oid` replaced by `value`.
pub open spec fn replace_value(s: Seq<CellView>, oid: Seq<u32>, value: ValueView) -> Seq<CellView> {
    s.map_values(
        |c: CellView|
            if c.0 == oid {
                (c.0, value)
            } else {
                c
            },
    )
}

impl MapHandler {
    /// The entries are kept in increasing order.
    #[verifier::type_invariant]
    spec fn wf(self) -> bool {
        is_increasing(cells(self.entries@))
    }

    /// An empty, read-only map rooted at `root`.
    pub fn new(root: Oid) -> (r: MapHandler)
        ensures
            r.state() == (MapState { root: root@, entries: seq![], writable: false }),
    {
        let entries: Vec<(Oid, Value)> = Vec::new();
        assert(cells(entries@) =~= seq![]);
        MapHandler { root, entries, writable: false }
    }

    /// This map with `oid` bound to `value`.
    pub fn with(self, oid: Oid, value: Value) -> (r: MapHandler)
        ensures
            is_increasing(r.state().entries),
            r.state().map() == self.state().map().insert(oid@, value@),
            r.state().root == self.state().root,
            r.state().writable == self.state().writable,
    {
        proof {
            use_type_invariant(&self);
        }
        let MapHandler { root, entries, writable } = self;
        let mut entries = entries;
        put_cell(&mut entries, oid, value);
        MapHandler { root, entries, writable }
    }

    /// This map, accepting SET requests on existing instances.
    pub fn writable(self) -> (r: MapHandler)
        ensures
            r.state() == (MapState { writable: true, ..self.state() }),
    {
        proof {
            use_type_invariant(&self);
        }
        let MapHandler { root, entries, writable: _ } = self;
        MapHandler { root, entries, writable: true }
    }

    /// Bind `oid` to `value`.
    pub fn insert(&mut self, oid: Oid, value: Value)
        ensures
            is_increasing(final(self).state().entries),
            final(self).state().map() == old(self).state().map().insert(oid@, value@),
            final(self).state().root == old(self).state().root,
            final(self).state().writable == old(self).state().writable,
    {
        proof {
            use_type_invariant(&*self);
        }
        let mut entries: Vec<(Oid, Value)> = copy_cells(self.entries.as_slice());
        put_cell(&mut entries, oid, value);
        self.entries = entries;
    }

    /// Set the value of an existing instance in one step, with no check of its type.
    pub fn set(&mut self, oid: &Oid, value: &Value) -> (r: Result<(), ErrorStatus>)
        ensures
            (final(self).state(), r) == MapHandler::commit_of(old(self).state(), oid@, value@),
    {
        proof {
            use_type_invariant(&*self);
        }
        if !self.writable {
            return Err(ErrorStatus::NotWritable);
        }
        let mut entries: Vec<(Oid, Value)> = Vec::new();
        let mut found = false;
        let mut i: usize = 0;
        let ghost s = cells(self.entries@);
        while i < self.entries.len()
            invariant
                i <= self.entries@.len(),
                s == cells(self.entries@),
                cells(entries@) =~= replace_value(s.take(i as int), oid@, value@),
                found == exists|k: int| 0 <= k < i && #[trigger] s[k].0 == oid@,
            decreases self.entries@.len() - i,
        {
            let ghost before = entries@;
            assert(s[i as int].0 == self.entries@[i as int].0@);
            if self.entries[i].0.same(oid) {
                found = true;
                entries.push((self.entries[i].0.clone(), value.clone()));
            } else {
                entries.push((self.entries[i].0.clone(), self.entries[i].1.clone()));
            }
            proof {
                let c = entries@.last();
                assert(cells(entries@) =~= cells(before).push((c.0@, c.1@)));
                assert(replace_value(s.take(i + 1), oid@, value@) =~= replace_value(
                    s.take(i as int),
                    oid@,
                    value@,
                ).push((c.0@, c.1@)));
            }
            i += 1;
        }
        assert(s.take(i as int) =~= s);
        proof {
            lemma_find_exists(s, oid@);
            assert forall|a: int, b: int|
                #![trigger cells(entries@)[a], cells(entries@)[b]]
                0 <= a < b < entries@.len() implies lex_lt(
                cells(entries@)[a].0,
                cells(entries@)[b].0,
            ) by {
                assert(cells(entries@)[a].0 == s[a].0);
                assert(cells(entries@)[b].0 == s[b].0);
            }
        }
        if found {
            self.entries = entries;
            Ok(())
        } else {
            Err(ErrorStatus::NoCreation)
        }
    }
}

proof fn lemma_find_exists(s: Seq<CellView>, oid: Seq<u32>)
    ensures
        find(s, oid) is Some <==> exists|k: int| 0 <= k < s.len() && #[trigger] s[k].0 == oid,
    decreases s.len(),
{
    if s.len() > 0 {
        let t = s.drop_first();
        lemma_find_exists(t, oid);
        if s[0].0 == oid {
        } else {
            if find(t, oid) is Some {
                let k = choose|k: int| 0 <= k < t.len() && #[trigger] t[k].0 == oid;
                assert(s[k + 1].0 == oid);
            }
            if exists|k: int| 0 <= k < s.len() && #[trigger] s[k].0 == oid {
                let k = choose|k: int| 0 <= k < s.len() && #[trigger] s[k].0 == oid;
                assert(t[k - 1].0 == oid);
            }
        }
    }
}

impl MibHandler for MapHandler {
    type State = MapState;

    closed spec fn state(&self) -> MapState {
        MapState { root: self.root@, entries: cells(self.entries@), writable: self.writable }
    }

    open spec fn root_of(s: MapState) -> Seq<u32> {
        s.root
    }

    open spec fn get_of(s: MapState, oid: Seq<u32>) -> Option<ValueView> {
        find(s.entries, oid)
    }

    open spec fn next_of(s: MapState, oid: Seq<u32>) -> Option<(Seq<u32>, ValueView)> {
        find_next(s.entries, oid)
    }

    open spec fn prepare_of(s: MapState, oid: Seq<u32>, value: ValueView) -> (
        MapState,
        Result<(), ErrorStatus>,
    ) {
        if !s.writable {
            (s, Err(ErrorStatus::NotWritable))
        } else {
            match find(s.entries, oid) {
                Some(current) => if compatible(current, value) {
                    (s, Ok(()))
                } else {
                    (s, Err(ErrorStatus::WrongType))
                },
                None => (s, Err(ErrorStatus::NoCreation)),
            }
        }
    }

    open spec fn commit_of(s: MapState, oid: Seq<u32>, value: ValueView) -> (
        MapState,
        Result<(), ErrorStatus>,
    ) {
        if !s.writable {
            (s, Err(ErrorStatus::NotWritable))
        } else if find(s.entries, oid) is Some {
            (MapState { entries: replace_value(s.entries, oid, value), ..s }, Ok(()))
        } else {
            (s, Err(ErrorStatus::NoCreation))
        }
    }

    open spec fn undo_of(s: MapState, oid: Seq<u32>, value: ValueView) -> (
        MapState,
        Result<(), ErrorStatus>,
    ) {
        (s, Ok(()))
    }

    fn root(&self) -> (r: &Oid) {
        &self.root
    }

    fn get(&self, oid: &Oid) -> (r: Option<Value>) {
        proof {
            use_type_invariant(self);
            lemma_increasing_sorted(cells(self.entries@));
        }
        lookup(self.entries.as_slice(), oid)
    }

    fn get_next(&self, oid: &Oid) -> (r: Option<Reading>) {
        proof {
            use_type_invariant(self);
            lemma_increasing_sorted(cells(self.entries@));
        }
        match lookup_next(self.entries.as_slice(), oid) {
            Some((oid, value)) => Some(Reading { oid, value }),
            None => None,
        }
    }

    fn prepare_set(&mut self, oid: &Oid, value: &Value) -> (r: Result<(), ErrorStatus>) {
        if !self.writable {
            return Err(ErrorStatus::NotWritable);
        }
        match self.get(oid) {
            Some(current) => {
                if !types_compatible(&current, value) {
                    Err(ErrorStatus::WrongType)
                } else {
                    Ok(())
                }
            },
            None => Err(ErrorStatus::NoCreation),
        }
    }

    fn commit_set(&mut self, oid: &Oid, value: &Value) -> (r: Result<(), ErrorStatus>) {
        self.set(oid, value)
    }

    fn undo_set(&mut self, oid: &Oid, value: &Value) -> (r: Result<(), ErrorStatus>) {
        Ok(())
    }
}

/// A GET on a scalar answers the value that the last accepted SET of its instance gave.
pub proof fn scalar_reads_what_was_set(s: ScalarState, value: ValueView)
    requires
        s.writable,
    ensures
        ScalarHandler::commit_of(s, s.instance(), value).1 is Ok,
        ScalarHandler::get_of(ScalarHandler::commit_of(s, s.instance(), value).0, s.instance())
            == Some(value),
{
}

/// A SET that the reservation phase of a scalar accepts is accepted by its commit phase.
pub proof fn scalar_prepared_set_commits(s: ScalarState, oid: Seq<u32>, value: ValueView)
    requires
        ScalarHandler::prepare_of(s, oid, value).1 is Ok,
    ensures
        ScalarHandler::commit_of(s, oid, value).1 is Ok,
{
}

/// A SET that the reservation phase of a map accepts is accepted by its commit phase, which
/// changes that instance and no other.
pub proof fn map_set_changes_one_instance(
    s: MapState,
    oid: Seq<u32>,
    value: ValueView,
    other: Seq<u32>,
)
    requires
        MapHandler::prepare_of(s, oid, value).1 is Ok,
    ensures
        MapHandler::commit_of(s, oid, value).1 is Ok,
        MapHandler::get_of(MapHandler::commit_of(s, oid, value).0, other) == if other == oid {
            Some(value)
        } else {
            MapHandler::get_of(s, other)
        },
{
    lemma_find_replaced(s.entries, oid, value, other);
}

pub(crate) proof fn lemma_find_replaced(s: Seq<CellView>, oid: Seq<u32>, value: ValueView, other: Seq<u32>)
    ensures
        find(replace_value(s, oid, value), other) == if other == oid && find(s, oid) is Some {
            Some(value)
        } else {
            find(s, other)
        },
    decreases s.len(),
{
    if s.len() > 0 {
        assert(replace_value(s, oid, value).drop_first() =~= replace_value(
            s.drop_first(),
            oid,
            value,
        ));
        lemma_find_replaced(s.drop_first(), oid, value, other);
    }
}

/// A GET on a map answers what the map holds.
pub proof fn map_get_is_lookup(s: MapState, oid: Seq<u32>)
    requires
        is_increasing(s.entries),
    ensures
        MapHandler::get_of(s, oid) is Some <==> s.map().contains_key(oid),
        MapHandler::get_of(s, oid) matches Some(v) ==> s.map()[oid] == v,
{
    find_is_map_lookup(s.entries, oid);
}

} // verus!
