//! Which handlers of the library walk their instances in order.

use vstd::prelude::*;

use crate::any_handler::AnyHandler;
use crate::any_handler::AnyState;
use crate::cells::cell_map;
use crate::cells::every_list_makes_a_table;
use crate::cells::find;
use crate::cells::find_is_map_lookup;
use crate::cells::find_next;
use crate::cells::find_next_is_least;
use crate::cells::is_increasing;
use crate::cells::lemma_increasing_sorted;
use crate::cells::lemma_map_entries;
use crate::cells::table_of;
use crate::cells::CellView;
use crate::handler::MibHandler;
use crate::mibgroup::host::SwRunState;
use crate::mibgroup::live::LiveState;
use crate::mibgroup::netsnmp_agent::cache_cells;
use crate::mibgroup::netsnmp_agent::CacheView;
use crate::mibgroup::set_serial::set_serial_instance;
use crate::mibgroup::set_serial::set_serial_root;
use crate::mibgroup::set_serial::SerialState;
use crate::oid::is_prefix;
use crate::oid::lex_lt;
use crate::oid::lex_lt_irreflexive;
use crate::registry_laws::serves_its_subtree;
use crate::registry_laws::walks_its_instances;
use crate::scalar::table_state;
use crate::scalar::MapState;
use crate::scalar::ScalarState;

verus! {

/// Whether all cells lie under a root.
pub open spec fn all_under(cells: Seq<CellView>, root: Seq<u32>) -> bool {
    forall|i: int| 0 <= i < cells.len() ==> is_prefix(root, (#[trigger] cells[i]).0)
}

proof fn lemma_list_walks(s: Seq<CellView>, oid: Seq<u32>)
    requires
        is_increasing(s),
    ensures
        find_next(s, oid) matches Some(c) ==> lex_lt(oid, c.0) && find(s, c.0) == Some(c.1),
        forall|p: Seq<u32>|
            (#[trigger] find(s, p)) is Some && lex_lt(oid, p) ==> {
                &&& find_next(s, oid) matches Some(c)
                &&& !lex_lt(p, c.0)
            },
{
    lemma_increasing_sorted(s);
    find_next_is_least(s, oid);
    lemma_map_entries(s);
    if let Some(c) = find_next(s, oid) {
        find_is_map_lookup(s, c.0);
        let i = choose|i: int| 0 <= i < s.len() && s[i] == c;
        assert(s[i] == c);
    }
    assert forall|p: Seq<u32>| (#[trigger] find(s, p)) is Some && lex_lt(oid, p) implies ({
        &&& find_next(s, oid) matches Some(c)
        &&& !lex_lt(p, c.0)
    }) by {
        find_is_map_lookup(s, p);
        assert(cell_map(s).contains_key(p));
        let i = choose|i: int| 0 <= i < s.len() && s[i].0 == p;
        assert(lex_lt(oid, s[i].0));
    }
}

proof fn lemma_found_under(s: Seq<CellView>, root: Seq<u32>, oid: Seq<u32>)
    requires
        is_increasing(s),
        all_under(s, root),
        find(s, oid) is Some,
    ensures
        is_prefix(root, oid),
{
    find_is_map_lookup(s, oid);
    lemma_map_entries(s);
    let i = choose|i: int| 0 <= i < s.len() && s[i].0 == oid;
    assert(is_prefix(root, s[i].0));
}

/// A scalar walks its one instance, which lies in its subtree.
pub proof fn scalars_walk_in_order<P: MibHandler>(s: ScalarState)
    ensures
        walks_its_instances::<AnyHandler<P>>(AnyState::Scalar(s)),
        serves_its_subtree::<AnyHandler<P>>(AnyState::Scalar(s)),
{
    let i = s.instance();
    assert(i.take(s.root.len() as int) =~= s.root);
    lex_lt_irreflexive(i);
}

proof fn lemma_cells_walk<H: MibHandler>(x: H::State, s: Seq<CellView>)
    requires
        is_increasing(s),
        forall|oid: Seq<u32>| #[trigger] H::get_of(x, oid) == find(s, oid),
        forall|oid: Seq<u32>| #[trigger] H::next_of(x, oid) == find_next(s, oid),
    ensures
        walks_its_instances::<H>(x),
        all_under(s, H::root_of(x)) ==> serves_its_subtree::<H>(x),
{
    if all_under(s, H::root_of(x)) {
        assert forall|oid: Seq<u32>| (#[trigger] H::get_of(x, oid)) is Some implies is_prefix(
            H::root_of(x),
            oid,
        ) by {
            lemma_found_under(s, H::root_of(x), oid);
        }
    }
    assert forall|oid: Seq<u32>, p: Seq<u32>|
        #![trigger H::next_of(x, oid), H::get_of(x, p)]
        H::get_of(x, p) is Some && lex_lt(oid, p) implies ({
        &&& H::next_of(x, oid) matches Some(c)
        &&& !lex_lt(p, c.0)
    }) by {
        lemma_list_walks(s, oid);
        assert(find(s, p) is Some);
    }
    assert forall|oid: Seq<u32>| (#[trigger] H::next_of(x, oid)) is Some implies ({
        let c = H::next_of(x, oid)->0;
        lex_lt(oid, c.0) && H::get_of(x, c.0) == Some(c.1)
    }) by {
        lemma_list_walks(s, oid);
    }
}

/// A map walks its instances in order.
pub proof fn maps_walk_in_order<P: MibHandler>(s: MapState)
    requires
        is_increasing(s.entries),
    ensures
        walks_its_instances::<AnyHandler<P>>(AnyState::Instances(s)),
        all_under(s.entries, s.root) ==> serves_its_subtree::<AnyHandler<P>>(
            AnyState::Instances(s),
        ),
{
    lemma_cells_walk::<AnyHandler<P>>(AnyState::Instances(s), s.entries);
}

/// A table walks its cells in order.
pub proof fn tables_walk_in_order<P: MibHandler>(root: Seq<u32>, provided: Seq<CellView>)
    ensures
        walks_its_instances::<AnyHandler<P>>(AnyState::Table(table_state(root, provided))),
        all_under(provided, root) ==> serves_its_subtree::<AnyHandler<P>>(
            AnyState::Table(table_state(root, provided)),
        ),
{
    let s = table_of(provided);
    every_list_makes_a_table(provided);
    lemma_map_entries(s);
    if all_under(provided, root) {
        assert forall|i: int| 0 <= i < s.len() implies is_prefix(root, (#[trigger] s[i]).0) by {
            lemma_key_is_provided(provided, s[i].0);
            let j = choose|j: int| 0 <= j < provided.len() && provided[j].0 == s[i].0;
            assert(is_prefix(root, provided[j].0));
        }
    }
    lemma_cells_walk::<AnyHandler<P>>(AnyState::Table(table_state(root, provided)), s);
}

/// The serial number walks its one instance, which lies in its subtree.
pub proof fn serial_number_walks_in_order<P: MibHandler>(s: SerialState)
    ensures
        walks_its_instances::<AnyHandler<P>>(AnyState::Serial(s)),
        serves_its_subtree::<AnyHandler<P>>(AnyState::Serial(s)),
{
    let i = set_serial_instance();
    assert(i.take(set_serial_root().len() as int) =~= set_serial_root());
    lex_lt_irreflexive(i);
}

/// The running software walks its cells in order.
pub proof fn running_software_walks_in_order<P: MibHandler>(s: SwRunState)
    requires
        is_increasing(s.cells),
    ensures
        walks_its_instances::<AnyHandler<P>>(AnyState::SwRun(s)),
        all_under(s.cells, s.root) ==> serves_its_subtree::<AnyHandler<P>>(AnyState::SwRun(s)),
{
    lemma_cells_walk::<AnyHandler<P>>(AnyState::SwRun(s), s.cells);
}

/// Counters and rows that change are walked in order, as they are at the time.
pub proof fn live_tables_walk_in_order<P: MibHandler>(s: LiveState)
    ensures
        walks_its_instances::<AnyHandler<P>>(AnyState::Live(s)),
{
    every_list_makes_a_table(s.source.cells());
    lemma_cells_walk::<AnyHandler<P>>(AnyState::Live(s), table_of(s.source.cells()));
}

/// The caches walk their cells in order.
pub proof fn caches_walk_in_order<P: MibHandler>(s: CacheView)
    ensures
        walks_its_instances::<AnyHandler<P>>(AnyState::Cache(s)),
{
    every_list_makes_a_table(cache_cells(s));
    lemma_cells_walk::<AnyHandler<P>>(AnyState::Cache(s), table_of(cache_cells(s)));
}

proof fn lemma_key_is_provided(s: Seq<CellView>, oid: Seq<u32>)
    requires
        cell_map(s).contains_key(oid),
    ensures
        exists|j: int| 0 <= j < s.len() && s[j].0 == oid,
    decreases s.len(),
{
    if s.len() > 0 {
        let t = s.drop_last();
        if s.last().0 == oid {
            assert(s[s.len() - 1].0 == oid);
        } else {
            lemma_key_is_provided(t, oid);
            let j = choose|j: int| 0 <= j < t.len() && t[j].0 == oid;
            assert(s[j].0 == oid);
        }
    }
}

} // verus!
