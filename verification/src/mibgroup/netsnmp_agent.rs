//! The objects with which the agent describes itself: caches, debugging, logging, modules,
//! transactions and access.

use vstd::prelude::*;

use crate::any_handler::push_tables;
use crate::any_handler::table_states;
use crate::any_handler::AnyHandler;
use crate::any_handler::AnyState;
use crate::cells::cell;
use crate::cells::cell_map;
use crate::cells::cells;
use crate::cells::collect_cells;
use crate::cells::every_list_makes_a_table;
use crate::cells::find;
use crate::cells::find_is_map_lookup;
use crate::cells::find_next;
use crate::cells::is_sort_of;
use crate::cells::is_sorted;
use crate::cells::lemma_increasing_sorted;
use crate::cells::length_prefixed;
use crate::cells::lookup;
use crate::cells::lookup_next;
use crate::cells::push_cell;
use crate::cells::push_row_cell;
use crate::cells::row_number;
use crate::cells::sort_cells;
use crate::cells::string_index;
use crate::cells::table_is_unique;
use crate::cells::table_of;
use crate::cells::CellView;
use crate::handler::MibHandler;
use crate::handler::Reading;
use crate::oid::is_prefix;
use crate::oid::lex_lt;
use crate::oid::lex_lt_total;
use crate::oid::lex_lt_transitive;
use crate::oid::oid_text;
use crate::oid::Oid;
use crate::pdu::ErrorStatus;
use crate::registry::handler_states;
use crate::scalar::scalar_state;
use crate::scalar::table_state;
use crate::scalar::FnHandler;
use crate::scalar::FnState;
use crate::sorting::text_before;
use crate::sorting::text_key;
use crate::sorting::text_key_is_injective;
use crate::text::str_eq;
use crate::text::utf8_text;
use crate::value::bytes_of;
use crate::value::text_value;
use crate::value::utf8;
use crate::value::Value;
use crate::value::ValueView;

verus! {

/// How long a cached answer is good.
#[derive(Clone, Copy, Debug, PartialEq, Eq, Structural)]
pub struct Ttl {
    /// Whole seconds.
    pub secs: u64,
    /// Nanoseconds on top of them.
    pub nanos: u32,
}

impl Ttl {
    /// A number of whole seconds.
    pub fn from_secs(secs: u64) -> (r: Ttl)
        ensures
            r == (Ttl { secs, nanos: 0 }),
    {
        Ttl { secs, nanos: 0 }
    }
}

/// The caches of modules, by name.
pub type Modules = Seq<(Seq<char>, Ttl)>;

/// The names and times of a list.
pub open spec fn named_ttls(v: Seq<(String, Ttl)>) -> Modules {
    v.map_values(|m: (String, Ttl)| (m.0@, m.1))
}

/// Whether one name comes before another.
pub open spec fn name_lt(a: Seq<char>, b: Seq<char>) -> bool {
    lex_lt(text_key(a), text_key(b))
}

/// Whether the names increase.
pub open spec fn names_increase(l: Modules) -> bool {
    forall|i: int, j: int|
        #![trigger l[i], l[j]]
        0 <= i < j < l.len() ==> name_lt(l[i].0, l[j].0)
}

/// The modules after one of them got a time, at its place by name.
pub open spec fn with_ttl(l: Modules, name: Seq<char>, ttl: Ttl) -> Modules
    decreases l.len(),
{
    if l.len() == 0 {
        seq![(name, ttl)]
    } else if l.last().0 == name {
        l.drop_last().push((name, ttl))
    } else if name_lt(name, l.last().0) {
        with_ttl(l.drop_last(), name, ttl).push(l.last())
    } else {
        l.push((name, ttl))
    }
}

/// The time of a module.
pub open spec fn ttl_of(l: Modules, name: Seq<char>) -> Option<Ttl>
    decreases l.len(),
{
    if l.len() == 0 {
        None
    } else if l.last().0 == name {
        Some(l.last().1)
    } else {
        ttl_of(l.drop_last(), name)
    }
}

/// The modules without one of them.
pub open spec fn without(l: Modules, name: Seq<char>) -> Modules
    decreases l.len(),
{
    if l.len() == 0 {
        seq![]
    } else if l.last().0 == name {
        without(l.drop_last(), name)
    } else {
        without(l.drop_last(), name).push(l.last())
    }
}

/// A module has the time that was set last, and the times of the others stay.
pub proof fn set_ttl_reads_back(l: Modules, name: Seq<char>, ttl: Ttl, other: Seq<char>)
    ensures
        ttl_of(with_ttl(l, name, ttl), name) == Some(ttl),
        other != name ==> ttl_of(with_ttl(l, name, ttl), other) == ttl_of(l, other),
    decreases l.len(),
{
    let after = with_ttl(l, name, ttl);
    if l.len() == 0 {
        assert(after.drop_last() =~= l);
    } else if l.last().0 == name {
        assert(after.drop_last() =~= l.drop_last());
    } else if name_lt(name, l.last().0) {
        set_ttl_reads_back(l.drop_last(), name, ttl, other);
        assert(after.drop_last() =~= with_ttl(l.drop_last(), name, ttl));
    } else {
        assert(after.drop_last() =~= l);
    }
}

/// A module that is removed has no time, and the times of the others stay.
pub proof fn removed_module_is_gone(l: Modules, name: Seq<char>, other: Seq<char>)
    ensures
        ttl_of(without(l, name), name) is None,
        other != name ==> ttl_of(without(l, name), other) == ttl_of(l, other),
    decreases l.len(),
{
    if l.len() > 0 {
        removed_module_is_gone(l.drop_last(), name, other);
        if l.last().0 != name {
            assert(without(l, name).drop_last() =~= without(l.drop_last(), name));
        }
    }
}

proof fn lemma_drop_last_increases(l: Modules)
    requires
        names_increase(l),
        l.len() > 0,
    ensures
        names_increase(l.drop_last()),
        forall|i: int| 0 <= i < l.len() - 1 ==> name_lt((#[trigger] l[i]).0, l.last().0),
{
    let t = l.drop_last();
    assert forall|i: int, j: int| #![trigger t[i], t[j]] 0 <= i < j < t.len() implies name_lt(
        t[i].0,
        t[j].0,
    ) by {
        assert(t[i] == l[i] && t[j] == l[j]);
    }
    assert(l.last() == l[l.len() - 1]);
}

proof fn lemma_push_increases(l: Modules, x: (Seq<char>, Ttl))
    requires
        names_increase(l),
        l.len() > 0 ==> name_lt(l.last().0, x.0),
    ensures
        names_increase(l.push(x)),
{
    let n = l.push(x);
    assert forall|i: int, j: int| #![trigger n[i], n[j]] 0 <= i < j < n.len() implies name_lt(
        n[i].0,
        n[j].0,
    ) by {
        assert(n[i] == l[i]);
        if j < l.len() {
            assert(n[j] == l[j]);
        } else if i < l.len() - 1 {
            assert(name_lt(l[i].0, l[l.len() - 1].0));
            lex_lt_transitive(text_key(l[i].0), text_key(l.last().0), text_key(x.0));
        }
    }
}

/// Setting the time of a module keeps the names in order, and adds no name but its own.
proof fn lemma_with_ttl_increases(l: Modules, name: Seq<char>, ttl: Ttl)
    requires
        names_increase(l),
    ensures
        names_increase(with_ttl(l, name, ttl)),
        with_ttl(l, name, ttl).len() > 0,
        with_ttl(l, name, ttl).last().0 == name || (l.len() > 0 && with_ttl(
            l,
            name,
            ttl,
        ).last().0 == l.last().0),
    decreases l.len(),
{
    if l.len() > 0 {
        lemma_drop_last_increases(l);
        let t = l.drop_last();
        if l.last().0 == name {
            if t.len() > 0 {
                assert(t.last() == l[l.len() - 2]);
            }
            lemma_push_increases(t, (name, ttl));
        } else if name_lt(name, l.last().0) {
            lemma_with_ttl_increases(t, name, ttl);
            let w = with_ttl(t, name, ttl);
            if w.last().0 != name {
                assert(t.last() == l[l.len() - 2]);
            }
            lemma_push_increases(w, l.last());
        } else {
            lex_lt_total(text_key(name), text_key(l.last().0));
            if text_key(name) == text_key(l.last().0) {
                text_key_is_injective(name, l.last().0);
            }
            lemma_push_increases(l, (name, ttl));
        }
    }
}

proof fn lemma_without_increases(l: Modules, name: Seq<char>)
    requires
        names_increase(l),
    ensures
        names_increase(without(l, name)),
        without(l, name).len() > 0 ==> l.len() > 0 && (without(l, name).last().0 == l.last().0
            || name_lt(without(l, name).last().0, l.last().0)),
    decreases l.len(),
{
    if l.len() > 0 {
        lemma_drop_last_increases(l);
        let t = l.drop_last();
        lemma_without_increases(t, name);
        let w = without(t, name);
        if w.len() > 0 {
            assert(t.last() == l[l.len() - 2]);
            assert(name_lt(t.last().0, l.last().0));
            if w.last().0 != t.last().0 {
                lex_lt_transitive(text_key(w.last().0), text_key(t.last().0), text_key(l.last().0));
            }
        }
        if l.last().0 != name {
            lemma_push_increases(w, l.last());
        }
    }
}

#[derive(Debug)]
struct CacheModule {
    name: String,
    ttl: Ttl,
}

spec fn module_views(v: Seq<CacheModule>) -> Modules {
    v.map_values(|m: CacheModule| (m.name@, m.ttl))
}

/// The caches: whether they are used at all, and the time of each module, by name.
#[derive(Debug)]
pub struct NsCacheState {
    enabled: bool,
    modules: Vec<CacheModule>,
}

/// The mathematical content of a [`NsCacheState`].
#[verifier::ext_equal]
pub struct CacheView {
    pub enabled: bool,
    pub modules: Modules,
}

impl View for NsCacheState {
    type V = CacheView;

    closed spec fn view(&self) -> CacheView {
        CacheView { enabled: self.enabled, modules: module_views(self.modules@) }
    }
}

fn copy_modules(v: &Vec<CacheModule>) -> (r: Vec<CacheModule>)
    ensures
        module_views(r@) == module_views(v@),
{
    let mut out: Vec<CacheModule> = Vec::new();
    let mut i: usize = 0;
    while i < v.len()
        invariant
            i <= v@.len(),
            module_views(out@) =~= module_views(v@).take(i as int),
        decreases v@.len() - i,
    {
        let ghost before = out@;
        out.push(CacheModule { name: v[i].name.clone(), ttl: v[i].ttl });
        proof {
            let all = module_views(v@);
            assert(module_views(out@) =~= module_views(before).push(all[i as int]));
            assert(all.take(i + 1) =~= all.take(i as int).push(all[i as int]));
        }
        i += 1;
    }
    assert(module_views(v@).take(i as int) =~= module_views(v@));
    out
}

impl NsCacheState {
    /// The names are in order.
    #[verifier::type_invariant]
    spec fn wf(self) -> bool {
        names_increase(module_views(self.modules@))
    }

    /// Caches that are used, without a module.
    pub fn new() -> (r: NsCacheState)
        ensures
            r@ == (CacheView { enabled: true, modules: seq![] }),
    {
        NsCacheState::with_enabled(true)
    }

    /// Caches without a module.
    pub fn with_enabled(enabled: bool) -> (r: NsCacheState)
        ensures
            r@ == (CacheView { enabled, modules: seq![] }),
    {
        let modules: Vec<CacheModule> = Vec::new();
        assert(module_views(modules@) =~= Seq::<(Seq<char>, Ttl)>::empty());
        let r = NsCacheState { enabled, modules };
        r
    }

    /// Whether the caches are used.
    pub fn enabled(&self) -> (r: bool)
        ensures
            r == self@.enabled,
    {
        self.enabled
    }

    /// Say whether the caches are used.
    pub fn set_enabled(&mut self, enabled: bool)
        ensures
            final(self)@ == (CacheView { enabled, ..old(self)@ }),
    {
        proof {
            use_type_invariant(&*self);
        }
        self.enabled = enabled;
    }

    /// These caches with another time of a module.
    fn timed(&self, name: &str, ttl: Ttl) -> (r: NsCacheState)
        ensures
            r@ == (CacheView { modules: with_ttl(self@.modules, name@, ttl), ..self@ }),
    {
        proof {
            use_type_invariant(self);
            lemma_with_ttl_increases(self@.modules, name@, ttl);
        }
        let mut m = copy_modules(&self.modules);
        put_module(&mut m, name, ttl);
        NsCacheState { enabled: self.enabled, modules: m }
    }

    /// Set the time of a module.
    pub fn set_ttl(&mut self, name: &str, ttl: Ttl)
        ensures
            final(self)@ == (CacheView {
                modules: with_ttl(old(self)@.modules, name@, ttl),
                ..old(self)@
            }),
    {
        *self = self.timed(name, ttl);
    }

    /// Remove a module, and give the time it had.
    pub fn remove_ttl(&mut self, name: &str) -> (r: Option<Ttl>)
        ensures
            r == ttl_of(old(self)@.modules, name@),
            final(self)@ == (CacheView {
                modules: without(old(self)@.modules, name@),
                ..old(self)@
            }),
    {
        proof {
            use_type_invariant(&*self);
        }
        let r = self.find_ttl(name);
        let m = drop_module(&self.modules, name);
        proof {
            lemma_without_increases(self@.modules, name@);
        }
        self.modules = m;
        r
    }

    fn find_ttl(&self, name: &str) -> (r: Option<Ttl>)
        ensures
            r == ttl_of(self@.modules, name@),
    {
        let ghost all = self@.modules;
        let mut n: usize = self.modules.len();
        assert(all.take(n as int) =~= all);
        while n > 0
            invariant
                n <= self.modules@.len(),
                all == self@.modules,
                ttl_of(all, name@) == ttl_of(all.take(n as int), name@),
            decreases n,
        {
            assert(all.take(n as int).last() == all[n - 1]);
            if str_eq(self.modules[n - 1].name.as_str(), name) {
                return Some(self.modules[n - 1].ttl);
            }
            assert(all.take(n as int).drop_last() =~= all.take(n - 1));
            n -= 1;
        }
        None
    }

    /// The time of a module, or `default`.
    pub fn ttl(&self, name: &str, default: Ttl) -> (r: Ttl)
        ensures
            r == match ttl_of(self@.modules, name@) {
                Some(t) => t,
                None => default,
            },
    {
        match self.find_ttl(name) {
            Some(t) => t,
            None => default,
        }
    }

    /// The modules with their times, in the order of their names.
    pub fn modules(&self) -> (r: Vec<(String, Ttl)>)
        ensures
            named_ttls(r@) == self@.modules,
            names_increase(self@.modules),
    {
        proof {
            use_type_invariant(self);
        }
        let mut out: Vec<(String, Ttl)> = Vec::new();
        let mut i: usize = 0;
        while i < self.modules.len()
            invariant
                i <= self.modules@.len(),
                named_ttls(out@) =~= self@.modules.take(i as int),
            decreases self.modules@.len() - i,
        {
            let ghost before = out@;
            out.push((self.modules[i].name.clone(), self.modules[i].ttl));
            proof {
                let all = self@.modules;
                assert(named_ttls(out@) =~= named_ttls(before).push(all[i as int]));
                assert(all.take(i + 1) =~= all.take(i as int).push(all[i as int]));
            }
            i += 1;
        }
        assert(self@.modules.take(i as int) =~= self@.modules);
        out
    }

    /// The cells of the group.
    pub fn cells(&self) -> (r: Vec<(Oid, Value)>)
        ensures
            cells(r@) == cache_cells(self@),
    {
        let root: [u32; 9] = [1, 3, 6, 1, 4, 1, 8072, 1, 6];
        let e: [u32; 11] = [1, 3, 6, 1, 4, 1, 8072, 1, 6, 2, 1];
        assert(root@ =~= ns_cache_root());
        assert(e@ =~= ns_cache_entry());
        let ghost all = self@.modules;
        let mut out: Vec<(Oid, Value)> = Vec::new();
        let enabled: i64 = if self.enabled {
            1
        } else {
            2
        };
        push_row_cell(&mut out, &root, 1, 0, Value::Integer(enabled));
        let ghost first = seq![
            cell(ns_cache_root(), 1, 0, ValueView::Integer(enabled)),
        ];
        let mut i: usize = 0;
        proof {
            assert(all.take(0) =~= Seq::<(Seq<char>, Ttl)>::empty());
            assert(cells(out@) =~= first + module_cache_cells(all.take(0)));
        }
        while i < self.modules.len()
            invariant
                i <= self.modules@.len(),
                e@ == ns_cache_entry(),
                all == self@.modules,
                cells(out@) == first + module_cache_cells(all.take(i as int)),
            decreases self.modules@.len() - i,
        {
            let ghost before = cells(out@);
            let m = &self.modules[i];
            proof {
                assert(all.take(i + 1).drop_last() =~= all.take(i as int));
                assert(all.take(i + 1).last() == all[i as int]);
            }
            let name = bytes_of(m.name.as_str());
            let index = string_index(name.as_slice());
            let secs: i64 = seconds_of(m.ttl);
            push_cell(&mut out, &e, 2, index.as_slice(), Value::Integer(secs));
            push_cell(&mut out, &e, 3, index.as_slice(), Value::Integer(1));
            proof {
                assert(cells(out@) =~= before + cache_row(all[i as int]));
                assert(cells(out@) =~= first + module_cache_cells(all.take(i + 1)));
            }
            i += 1;
        }
        assert(all.take(i as int) =~= all);
        out
    }
}

impl Default for NsCacheState {
    fn default() -> (r: NsCacheState)
        ensures
            r@ == (CacheView { enabled: true, modules: seq![] }),
    {
        NsCacheState::new()
    }
}

fn seconds_of(ttl: Ttl) -> (r: i64)
    ensures
        r == ttl.secs as i64,
{
    #[verifier::truncate]
    (ttl.secs as i64)
}

proof fn lemma_with_ttl_at(l: Modules, name: Seq<char>, ttl: Ttl, p: int)
    requires
        0 <= p <= l.len(),
        forall|k: int|
            p <= k < l.len() ==> name_lt(name, (#[trigger] l[k]).0) && l[k].0 != name,
        p > 0 ==> !name_lt(name, l[p - 1].0) || l[p - 1].0 == name,
    ensures
        with_ttl(l, name, ttl) == (if p > 0 && l[p - 1].0 == name {
            l.update(p - 1, (name, ttl))
        } else {
            l.insert(p, (name, ttl))
        }),
    decreases l.len(),
{
    let x = (name, ttl);
    if p < l.len() {
        let t = l.drop_last();
        assert(l.last() == l[l.len() - 1]);
        assert forall|k: int| p <= k < t.len() implies name_lt(name, (#[trigger] t[k]).0) && t[k].0
            != name by {
            assert(t[k] == l[k]);
        }
        lemma_with_ttl_at(t, name, ttl, p);
        if p > 0 && l[p - 1].0 == name {
            assert(t.update(p - 1, x).push(l.last()) =~= l.update(p - 1, x));
        } else {
            assert(t.insert(p, x).push(l.last()) =~= l.insert(p, x));
        }
    } else if l.len() > 0 {
        assert(l.last() == l[p - 1]);
        if l[p - 1].0 == name {
            assert(l.drop_last().push(x) =~= l.update(p - 1, x));
        } else {
            assert(l.push(x) =~= l.insert(p, x));
        }
    } else {
        assert(seq![x] =~= l.insert(p, x));
    }
}

fn put_module(m: &mut Vec<CacheModule>, name: &str, ttl: Ttl)
    ensures
        module_views(final(m)@) == with_ttl(module_views(old(m)@), name@, ttl),
{
    let ghost l = module_views(m@);
    let mut p: usize = m.len();
    let mut done = false;
    while !done && p > 0
        invariant
            p <= m@.len(),
            l == module_views(m@),
            forall|k: int|
                p <= k < l.len() ==> name_lt(name@, (#[trigger] l[k]).0) && l[k].0 != name@,
            done ==> p > 0 && (!name_lt(name@, l[p - 1].0) || l[p - 1].0 == name@),
        decreases p + if done { 0int } else { 1int },
    {
        assert(l[p - 1].0 == m@[p - 1].name@);
        if str_eq(m[p - 1].name.as_str(), name) || !text_before(name, m[p - 1].name.as_str()) {
            done = true;
        } else {
            p -= 1;
        }
    }
    proof {
        lemma_with_ttl_at(l, name@, ttl, p as int);
    }
    let found = p > 0 && str_eq(m[p - 1].name.as_str(), name);
    if found {
        m.set(p - 1, CacheModule { name: name.to_owned(), ttl });
        assert(module_views(m@) =~= l.update(p - 1, (name@, ttl)));
    } else {
        m.insert(p, CacheModule { name: name.to_owned(), ttl });
        assert(module_views(m@) =~= l.insert(p as int, (name@, ttl)));
    }
}

fn drop_module(v: &Vec<CacheModule>, name: &str) -> (r: Vec<CacheModule>)
    ensures
        module_views(r@) == without(module_views(v@), name@),
{
    let ghost all = module_views(v@);
    let mut out: Vec<CacheModule> = Vec::new();
    let mut i: usize = 0;
    proof {
        assert(all.take(0) =~= Seq::<(Seq<char>, Ttl)>::empty());
        assert(module_views(out@) =~= Seq::<(Seq<char>, Ttl)>::empty());
    }
    while i < v.len()
        invariant
            i <= v@.len(),
            all == module_views(v@),
            module_views(out@) == without(all.take(i as int), name@),
        decreases v@.len() - i,
    {
        let ghost before = out@;
        proof {
            assert(all.take(i + 1).drop_last() =~= all.take(i as int));
            assert(all.take(i + 1).last() == all[i as int]);
        }
        if !str_eq(v[i].name.as_str(), name) {
            out.push(CacheModule { name: v[i].name.clone(), ttl: v[i].ttl });
            assert(module_views(out@) =~= module_views(before).push(all[i as int]));
        }
        i += 1;
    }
    assert(all.take(i as int) =~= all);
    out
}

/// The root of the cache group.
pub open spec fn ns_cache_root() -> Seq<u32> {
    seq![1u32, 3, 6, 1, 4, 1, 8072, 1, 6]
}

/// The row prefix of the cache table.
pub open spec fn ns_cache_entry() -> Seq<u32> {
    seq![1u32, 3, 6, 1, 4, 1, 8072, 1, 6, 2, 1]
}

/// The index of a module: the length of its name, and one arc per byte.
pub open spec fn module_index(name: Seq<char>) -> Seq<u32> {
    length_prefixed(utf8(name))
}

/// The cells of one module: its time in seconds, and that the row is active(1).
pub open spec fn cache_row(m: (Seq<char>, Ttl)) -> Seq<CellView> {
    let e = ns_cache_entry();
    seq![
        (e.push(2) + module_index(m.0), ValueView::Integer(m.1.secs as i64)),
        (e.push(3) + module_index(m.0), ValueView::Integer(1)),
    ]
}

/// The cells of modules, one after the other.
pub open spec fn module_cache_cells(l: Modules) -> Seq<CellView>
    decreases l.len(),
{
    if l.len() == 0 {
        seq![]
    } else {
        module_cache_cells(l.drop_last()) + cache_row(l.last())
    }
}

/// The cells of the cache group: whether caches are used, true(1) or false(2), and the modules.
pub open spec fn cache_cells(s: CacheView) -> Seq<CellView> {
    seq![
        cell(
            ns_cache_root(),
            1,
            0,
            ValueView::Integer(
                if s.enabled {
                    1
                } else {
                    2
                },
            ),
        ),
    ] + module_cache_cells(s.modules)
}

/// The low octets of arcs.
pub open spec fn arc_bytes(arcs: Seq<u32>) -> Seq<u8> {
    arcs.map_values(|a: u32| (a % 256) as u8)
}

/// The name that an index stands for.
pub open spec fn index_name(idx: Seq<u32>) -> Option<Seq<char>> {
    if idx.len() == 0 || idx.len() != idx[0] + 1 {
        None
    } else {
        let b = arc_bytes(idx.skip(1));
        if vstd::utf8::valid_utf8(b) {
            Some(vstd::utf8::decode_utf8(b))
        } else {
            None
        }
    }
}

/// The name that an index stands for.
pub fn decode_string_index(idx: &[u32]) -> (r: Option<String>)
    ensures
        (match r {
            Some(s) => Some(s@),
            None => None,
        }) == index_name(idx@),
{
    if idx.len() == 0 || idx.len() - 1 != idx[0] as usize {
        return None;
    }
    let mut bytes: Vec<u8> = Vec::new();
    let mut i: usize = 1;
    while i < idx.len()
        invariant
            1 <= i <= idx@.len(),
            bytes@ =~= arc_bytes(idx@.subrange(1, i as int)),
        decreases idx@.len() - i,
    {
        bytes.push((idx[i] % 256) as u8);
        i += 1;
    }
    assert(idx@.subrange(1, i as int) =~= idx@.skip(1));
    utf8_text(bytes.as_slice())
}

/// The index of a module stands for its name.
pub proof fn module_index_reads_back(name: Seq<char>)
    requires
        utf8(name).len() <= u32::MAX,
    ensures
        index_name(module_index(name)) == Some(name),
{
    let b = utf8(name);
    let idx = module_index(name);
    assert(arc_bytes(idx.skip(1)) =~= b);
    vstd::utf8::encode_utf8_decode_utf8(name);
    vstd::utf8::encode_utf8_valid_utf8(name);
}

/// The module whose time an instance stands for.
pub open spec fn timed_module(oid: Seq<u32>) -> Option<Seq<char>> {
    let p = ns_cache_entry().push(2);
    if is_prefix(p, oid) && oid.len() > p.len() {
        index_name(oid.skip(p.len() as int))
    } else {
        None
    }
}

/// Where the caches stand.
#[derive(Debug)]
struct CachePlace {
    root: Oid,
}

impl CachePlace {
    #[verifier::type_invariant]
    spec fn wf(self) -> bool {
        self.root@ == ns_cache_root()
    }

    fn new() -> (r: CachePlace) {
        let root = Oid::new(vec![1, 3, 6, 1, 4, 1, 8072, 1, 6]);
        assert(root@ =~= ns_cache_root());
        CachePlace { root }
    }

    fn root(&self) -> (r: &Oid)
        ensures
            r@ == ns_cache_root(),
    {
        proof {
            use_type_invariant(self);
        }
        &self.root
    }
}

/// The handler of the cache group, in which the time of a module can be set.
#[derive(Debug)]
pub struct NsCacheHandler {
    place: CachePlace,
    cache: NsCacheState,
}

impl NsCacheHandler {
    /// A handler that serves the given caches.
    pub fn new(cache: NsCacheState) -> (r: NsCacheHandler)
        ensures
            r.state() == cache@,
    {
        NsCacheHandler { place: CachePlace::new(), cache }
    }

    /// The caches.
    pub fn cache(&self) -> (r: &NsCacheState)
        ensures
            r@ == self.state(),
    {
        &self.cache
    }

    /// The caches that are served, for whoever changes them.
    pub fn cache_mut(&mut self) -> (r: &mut NsCacheState)
        ensures
            r@ == old(self).state(),
            final(self).state() == final(r)@,
    {
        &mut self.cache
    }

    fn decode_module_from_timeout(oid: &Oid) -> (r: Option<String>)
        ensures
            (match r {
                Some(s) => Some(s@),
                None => None,
            }) == timed_module(oid@),
    {
        let p = Oid::new(vec![1, 3, 6, 1, 4, 1, 8072, 1, 6, 2, 1, 2]);
        assert(p@ =~= ns_cache_entry().push(2));
        if !p.is_prefix_of(oid) || oid.len() <= 12 {
            return None;
        }
        let arcs = oid.as_slice();
        let tail = vstd::slice::slice_subrange(arcs, 12, arcs.len());
        assert(tail@ =~= oid@.skip(12));
        decode_string_index(tail)
    }

    fn table(&self) -> (r: Vec<(Oid, Value)>)
        ensures
            cells(r@) == table_of(cache_cells(self.state())),
            is_sorted(cells(r@)),
    {
        let raw = self.cache.cells();
        let r = collect_cells(raw);
        proof {
            table_is_unique(cells(r@), cache_cells(self.state()));
            lemma_increasing_sorted(cells(r@));
        }
        r
    }
}

impl MibHandler for NsCacheHandler {
    type State = CacheView;

    closed spec fn state(&self) -> CacheView {
        self.cache@
    }

    open spec fn root_of(s: CacheView) -> Seq<u32> {
        ns_cache_root()
    }

    open spec fn get_of(s: CacheView, oid: Seq<u32>) -> Option<ValueView> {
        find(table_of(cache_cells(s)), oid)
    }

    open spec fn next_of(s: CacheView, oid: Seq<u32>) -> Option<(Seq<u32>, ValueView)> {
        find_next(table_of(cache_cells(s)), oid)
    }

    open spec fn prepare_of(s: CacheView, oid: Seq<u32>, value: ValueView) -> (
        CacheView,
        Result<(), ErrorStatus>,
    ) {
        if timed_module(oid) is None {
            (s, Err(ErrorStatus::NotWritable))
        } else {
            match value {
                ValueView::Integer(secs) => if secs >= 0 {
                    (s, Ok(()))
                } else {
                    (s, Err(ErrorStatus::WrongType))
                },
                _ => (s, Err(ErrorStatus::WrongType)),
            }
        }
    }

    open spec fn commit_of(s: CacheView, oid: Seq<u32>, value: ValueView) -> (
        CacheView,
        Result<(), ErrorStatus>,
    ) {
        match timed_module(oid) {
            Some(name) => match value {
                ValueView::Integer(n) => {
                    let secs = if n < 0 {
                        0
                    } else {
                        n as u64
                    };
                    let modules = with_ttl(s.modules, name, Ttl { secs, nanos: 0 });
                    (CacheView { modules, ..s }, Ok(()))
                },
                _ => (s, Err(ErrorStatus::WrongType)),
            },
            None => (s, Err(ErrorStatus::NotWritable)),
        }
    }

    open spec fn undo_of(s: CacheView, oid: Seq<u32>, value: ValueView) -> (
        CacheView,
        Result<(), ErrorStatus>,
    ) {
        (s, Ok(()))
    }

    fn root(&self) -> (r: &Oid) {
        self.place.root()
    }

    fn get(&self, oid: &Oid) -> (r: Option<Value>) {
        let t = self.table();
        lookup(t.as_slice(), oid)
    }

    fn get_next(&self, oid: &Oid) -> (r: Option<Reading>) {
        let t = self.table();
        match lookup_next(t.as_slice(), oid) {
            Some((oid, value)) => Some(Reading { oid, value }),
            None => None,
        }
    }

    fn prepare_set(&mut self, oid: &Oid, value: &Value) -> (r: Result<(), ErrorStatus>) {
        if NsCacheHandler::decode_module_from_timeout(oid).is_none() {
            return Err(ErrorStatus::NotWritable);
        }
        match value {
            Value::Integer(secs) => {
                if *secs >= 0 {
                    Ok(())
                } else {
                    Err(ErrorStatus::WrongType)
                }
            },
            _ => Err(ErrorStatus::WrongType),
        }
    }

    fn commit_set(&mut self, oid: &Oid, value: &Value) -> (r: Result<(), ErrorStatus>) {
        let name = match NsCacheHandler::decode_module_from_timeout(oid) {
            Some(n) => n,
            None => {
                return Err(ErrorStatus::NotWritable);
            },
        };
        let secs: u64 = match value {
            Value::Integer(n) => {
                if *n < 0 {
                    0
                } else {
                    *n as u64
                }
            },
            _ => {
                return Err(ErrorStatus::WrongType);
            },
        };
        self.cache = self.cache.timed(name.as_str(), Ttl::from_secs(secs));
        Ok(())
    }

    fn undo_set(&mut self, oid: &Oid, value: &Value) -> (r: Result<(), ErrorStatus>) {
        Ok(())
    }
}

/// The instance of the time of a module.
pub open spec fn timeout_instance(name: Seq<char>) -> Seq<u32> {
    ns_cache_entry().push(2) + module_index(name)
}

/// Whether every name has an index of its own.
pub open spec fn names_are_short(l: Modules) -> bool {
    forall|i: int| 0 <= i < l.len() ==> utf8((#[trigger] l[i]).0).len() <= u32::MAX
}

proof fn lemma_cache_map(s: CacheView, name: Seq<char>)
    requires
        names_are_short(s.modules),
        utf8(name).len() <= u32::MAX,
    ensures
        match ttl_of(s.modules, name) {
            Some(t) => cell_map(cache_cells(s)).contains_key(timeout_instance(name)) && cell_map(
                cache_cells(s),
            )[timeout_instance(name)] == ValueView::Integer(t.secs as i64),
            None => !cell_map(cache_cells(s)).contains_key(timeout_instance(name)),
        },
    decreases s.modules.len(),
{
    let l = s.modules;
    let o = timeout_instance(name);
    let e = ns_cache_entry();
    if l.len() == 0 {
        let c = cache_cells(s);
        let none = Seq::<CellView>::empty();
        assert(c.drop_last() =~= none);
        assert(cell_map(none) =~= Map::<Seq<u32>, ValueView>::empty());
        assert(cell_map(c) == cell_map(none).insert(c.last().0, c.last().1));
        assert(c.last().0[9] == 1);
        assert(o[9] == 2);
    } else {
        let before = CacheView { modules: l.drop_last(), ..s };
        assert forall|i: int| 0 <= i < before.modules.len() implies utf8(
            (#[trigger] before.modules[i]).0,
        ).len() <= u32::MAX by {
            assert(before.modules[i] == l[i]);
        }
        lemma_cache_map(before, name);
        let m = l.last();
        assert(m == l[l.len() - 1]);
        let a = (e.push(2) + module_index(m.0), ValueView::Integer(m.1.secs as i64));
        let b = (e.push(3) + module_index(m.0), ValueView::Integer(1));
        let c = cache_cells(before);
        assert(cache_cells(s) =~= c.push(a).push(b));
        assert(c.push(a).push(b).drop_last() =~= c.push(a));
        assert(c.push(a).drop_last() =~= c);
        assert(cell_map(c.push(a)) == cell_map(c).insert(a.0, a.1));
        assert(cell_map(cache_cells(s)) == cell_map(c.push(a)).insert(b.0, b.1));
        assert(b.0[11] == 3);
        assert(o[11] == 2);
        if m.0 != name && a.0 == o {
            assert(a.0.skip(12) =~= module_index(m.0));
            assert(o.skip(12) =~= module_index(name));
            module_index_reads_back(m.0);
            module_index_reads_back(name);
        }
    }
}

proof fn lemma_with_ttl_names(l: Modules, name: Seq<char>, ttl: Ttl)
    requires
        names_are_short(l),
        utf8(name).len() <= u32::MAX,
    ensures
        names_are_short(with_ttl(l, name, ttl)),
    decreases l.len(),
{
    if l.len() > 0 {
        let t = l.drop_last();
        assert forall|i: int| 0 <= i < t.len() implies utf8((#[trigger] t[i]).0).len()
            <= u32::MAX by {
            assert(t[i] == l[i]);
        }
        assert(l.last() == l[l.len() - 1]);
        if l.last().0 != name && name_lt(name, l.last().0) {
            lemma_with_ttl_names(t, name, ttl);
        }
    }
}

/// The time of a module that was set is what a GET then answers.
pub proof fn timeout_reads_what_was_set(s: CacheView, name: Seq<char>, secs: i64)
    requires
        names_are_short(s.modules),
        utf8(name).len() <= u32::MAX,
        secs >= 0,
    ensures
        ({
            let o = timeout_instance(name);
            let v = ValueView::Integer(secs);
            &&& NsCacheHandler::prepare_of(s, o, v).1 is Ok
            &&& NsCacheHandler::get_of(NsCacheHandler::commit_of(s, o, v).0, o) == Some(v)
        }),
{
    let o = timeout_instance(name);
    let v = ValueView::Integer(secs);
    let p = ns_cache_entry().push(2);
    assert(o.take(p.len() as int) =~= p);
    assert(o.skip(p.len() as int) =~= module_index(name));
    module_index_reads_back(name);
    let ttl = Ttl { secs: secs as u64, nanos: 0 };
    let after = NsCacheHandler::commit_of(s, o, v).0;
    lemma_with_ttl_names(s.modules, name, ttl);
    set_ttl_reads_back(s.modules, name, ttl, name);
    lemma_cache_map(after, name);
    every_list_makes_a_table(cache_cells(after));
    find_is_map_lookup(table_of(cache_cells(after)), o);
}

/// The handlers of the cache group.
pub fn ns_cache_handlers(state: NsCacheState) -> (r: Vec<NsCacheHandler>)
    ensures
        handler_states(r@) == seq![state@],
{
    let r = vec![NsCacheHandler::new(state)];
    assert(handler_states(r@) =~= seq![state@]);
    r
}

/// The states of the handlers of the debugging group.
pub open spec fn debug_states() -> Seq<FnState> {
    let root = seq![1u32, 3, 6, 1, 4, 1, 8072, 1, 3];
    seq![
        scalar_state(
            root.push(1),
            ValueView::OctetString(utf8("net-snmp-rs debug (level=0)"@)),
        ),
        scalar_state(root.push(2), ValueView::Integer(2)),
        FnState { root: root.push(4).push(1), cells: seq![] },
    ]
}

/// The handlers of the debugging group: a summary, that debugging is off, and an empty table.
pub fn ns_debug_handlers() -> (r: Vec<FnHandler>)
    ensures
        handler_states(r@) == debug_states(),
{
    let root = Oid::new(vec![1, 3, 6, 1, 4, 1, 8072, 1, 3]);
    assert(root@ =~= seq![1u32, 3, 6, 1, 4, 1, 8072, 1, 3]);
    let r = vec![
        FnHandler::scalar(root.child(1), text_value("net-snmp-rs debug (level=0)")),
        FnHandler::scalar(root.child(2), Value::Integer(2)),
        FnHandler::empty(root.child(4).child(1)),
    ];
    assert(handler_states(r@) =~= debug_states());
    r
}

/// The states of the handlers of the logging group.
pub open spec fn logging_states() -> Seq<FnState> {
    let root = seq![1u32, 3, 6, 1, 4, 1, 8072, 1, 7];
    seq![
        scalar_state(root.push(1), ValueView::OctetString(utf8("net-snmp-rs logging"@))),
        FnState { root: root.push(2).push(1), cells: seq![] },
    ]
}

/// The handlers of the logging group: a summary and an empty table.
pub fn ns_logging_handlers() -> (r: Vec<FnHandler>)
    ensures
        handler_states(r@) == logging_states(),
{
    let root = Oid::new(vec![1, 3, 6, 1, 4, 1, 8072, 1, 7]);
    assert(root@ =~= seq![1u32, 3, 6, 1, 4, 1, 8072, 1, 7]);
    let r = vec![
        FnHandler::scalar(root.child(1), text_value("net-snmp-rs logging")),
        FnHandler::empty(root.child(2).child(1)),
    ];
    assert(handler_states(r@) =~= logging_states());
    r
}

/// The modules of an agent: the roots of its handlers, in order, each with its name.
#[derive(Debug)]
pub struct NsModuleSnapshot {
    modules: Vec<(Oid, Value)>,
}

/// A root with its name, which is its text.
pub open spec fn module_cell(root: Seq<u32>) -> CellView {
    (root, ValueView::OctetString(utf8(oid_text(root))))
}

/// The roots of handlers with their names.
pub open spec fn root_cells<H: MibHandler>(hs: Seq<H>) -> Seq<CellView> {
    hs.map_values(|h: H| module_cell(H::root_of(h.state())))
}

impl View for NsModuleSnapshot {
    type V = Seq<CellView>;

    closed spec fn view(&self) -> Seq<CellView> {
        cells(self.modules@)
    }
}

/// The row prefix of the module table.
pub open spec fn ns_module_entry() -> Seq<u32> {
    seq![1u32, 3, 6, 1, 4, 1, 8072, 1, 5, 1]
}

/// The cells of one module.
pub open spec fn module_row(index: u32, m: CellView) -> Seq<CellView> {
    let e = ns_module_entry();
    seq![cell(e, 1, index, ValueView::Oid(m.0)), cell(e, 2, index, m.1)]
}

/// The cells of modules, numbered from one.
pub open spec fn module_rows(ms: Seq<CellView>) -> Seq<CellView>
    decreases ms.len(),
{
    if ms.len() == 0 {
        seq![]
    } else {
        module_rows(ms.drop_last()) + module_row(ms.len() as u32, ms.last())
    }
}

impl NsModuleSnapshot {
    /// The modules that a list of handlers makes, in the order of their roots.
    pub fn new<H: MibHandler>(handlers: &[H]) -> (r: NsModuleSnapshot)
        ensures
            is_sort_of(r@, root_cells(handlers@)),
    {
        let mut v: Vec<(Oid, Value)> = Vec::new();
        let mut i: usize = 0;
        while i < handlers.len()
            invariant
                i <= handlers@.len(),
                cells(v@) =~= root_cells(handlers@).take(i as int),
            decreases handlers@.len() - i,
        {
            let ghost before = v@;
            let root = handlers[i].root().clone();
            let name = text_value(root.to_string().as_str());
            v.push((root, name));
            proof {
                let all = root_cells(handlers@);
                assert(cells(v@) =~= cells(before).push(all[i as int]));
                assert(all.take(i + 1) =~= all.take(i as int).push(all[i as int]));
            }
            i += 1;
        }
        assert(root_cells(handlers@).take(i as int) =~= root_cells(handlers@));
        NsModuleSnapshot { modules: sort_cells(v) }
    }

    /// The cells of the module table.
    pub fn cells(&self) -> (r: Vec<(Oid, Value)>)
        ensures
            cells(r@) == module_rows(self@),
    {
        let e: [u32; 10] = [1, 3, 6, 1, 4, 1, 8072, 1, 5, 1];
        assert(e@ =~= ns_module_entry());
        let ghost all = self@;
        let mut out: Vec<(Oid, Value)> = Vec::new();
        let mut i: usize = 0;
        proof {
            assert(all.take(0) =~= Seq::<CellView>::empty());
            assert(cells(out@) =~= Seq::<CellView>::empty());
        }
        while i < self.modules.len()
            invariant
                i <= self.modules@.len(),
                e@ == ns_module_entry(),
                all == self@,
                cells(out@) == module_rows(all.take(i as int)),
            decreases self.modules@.len() - i,
        {
            let ghost before = cells(out@);
            let m = &self.modules[i];
            let index: u32 = row_number(i);
            proof {
                assert(all.take(i + 1).drop_last() =~= all.take(i as int));
                assert(all.take(i + 1).last() == all[i as int]);
            }
            push_row_cell(&mut out, &e, 1, index, Value::Oid(m.0.clone()));
            push_row_cell(&mut out, &e, 2, index, m.1.clone());
            assert(cells(out@) =~= before + module_row(index, all[i as int]));
            i += 1;
        }
        assert(all.take(i as int) =~= all);
        out
    }
}

fn agent_oid(tail: &[u32]) -> (r: Oid)
    ensures
        r@ == seq![1u32, 3, 6, 1, 4, 1, 8072, 1] + tail@,
{
    let base = Oid::new(vec![1, 3, 6, 1, 4, 1, 8072, 1]);
    assert(base@ =~= seq![1u32, 3, 6, 1, 4, 1, 8072, 1]);
    base.extended(tail)
}

/// The handlers of the module table.
pub fn ns_module_handlers(snapshot: &NsModuleSnapshot) -> (r: Vec<FnHandler>)
    ensures
        handler_states(r@) == seq![table_state(ns_module_entry(), module_rows(snapshot@))],
{
    let root = Oid::new(vec![1, 3, 6, 1, 4, 1, 8072, 1, 5, 1]);
    assert(root@ =~= ns_module_entry());
    let r = vec![FnHandler::table(root, snapshot.cells())];
    assert(handler_states(r@) =~= seq![
        table_state(ns_module_entry(), module_rows(snapshot@)),
    ]);
    r
}

/// The state of a handler that serves nothing below the agent's root.
pub open spec fn empty_state(a: u32, b: u32) -> FnState {
    FnState { root: seq![1u32, 3, 6, 1, 4, 1, 8072, 1] + seq![a, b], cells: seq![] }
}

/// The handlers of the transaction table, which has no rows.
pub fn ns_transaction_handlers() -> (r: Vec<FnHandler>)
    ensures
        handler_states(r@) == seq![empty_state(8, 1)],
{
    let r = vec![FnHandler::empty(agent_oid(&[8, 1]))];
    assert(handler_states(r@) =~= seq![empty_state(8, 1)]);
    r
}

/// The handlers of the table of access rules, which has no rows.
pub fn ns_vacm_access_handlers() -> (r: Vec<FnHandler>)
    ensures
        handler_states(r@) == seq![empty_state(9, 1)],
{
    let r = vec![FnHandler::empty(agent_oid(&[9, 1]))];
    assert(handler_states(r@) =~= seq![empty_state(9, 1)]);
    r
}

/// The states of all handlers below the agent's root.
pub open spec fn agent_states<P: MibHandler>(c: CacheView, modules: Seq<CellView>) -> Seq<
    AnyState<P>,
> {
    seq![AnyState::Cache(c)] + table_states(
        debug_states() + logging_states() + seq![
            table_state(ns_module_entry(), module_rows(modules)),
            empty_state(8, 1),
            empty_state(9, 1),
        ],
    )
}

/// All handlers below the agent's root. Without modules their table is empty.
pub fn netsnmp_agent_handlers<P: MibHandler>(
    state: NsCacheState,
    modules: Option<&NsModuleSnapshot>,
) -> (r: Vec<AnyHandler<P>>)
    ensures
        handler_states(r@) == agent_states::<P>(
            state@,
            match modules {
                Some(m) => m@,
                None => seq![],
            },
        ),
{
    let mut out: Vec<AnyHandler<P>> = Vec::new();
    let none = NsModuleSnapshot { modules: Vec::new() };
    assert(none@ =~= Seq::<CellView>::empty());
    out.push(AnyHandler::Cache(NsCacheHandler::new(state)));
    assert(handler_states(out@) =~= seq![AnyState::Cache(state@)]);
    push_tables(&mut out, ns_debug_handlers());
    push_tables(&mut out, ns_logging_handlers());
    match modules {
        Some(m) => {
            push_tables(&mut out, ns_module_handlers(m));
        },
        None => {
            push_tables(&mut out, ns_module_handlers(&none));
        },
    }
    push_tables(&mut out, ns_transaction_handlers());
    push_tables(&mut out, ns_vacm_access_handlers());
    assert(handler_states(out@) =~= agent_states::<P>(
        state@,
        match modules {
            Some(m) => m@,
            None => seq![],
        },
    ));
    out
}

} // verus!
