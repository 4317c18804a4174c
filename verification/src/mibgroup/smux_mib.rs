//! The peers of the multiplexing server and their subtrees as objects.

use vstd::prelude::*;

use crate::any_handler::push_tables;
use crate::any_handler::table_states;
use crate::any_handler::AnyHandler;
use crate::cells::cell;
use crate::cells::cells;
use crate::cells::push_row_cell;
use crate::cells::row_number;
use crate::cells::CellView;
use crate::handler::MibHandler;
use crate::oid::Oid;
use crate::registry::handler_states;
use crate::registry::placed_all;
use crate::registry::Registry;
use crate::scalar::table_state;
use crate::scalar::FnHandler;
use crate::scalar::FnState;
use crate::smux::server::owners;
use crate::smux::server::SmuxPeer;
use crate::smux::server::SmuxServer;
use crate::value::Value;
use crate::value::ValueView;

verus! {

broadcast use vstd::std_specs::hash::group_hash_axioms;

/// The root of the group.
pub open spec fn smux_mib_root() -> Seq<u32> {
    seq![1u32, 3, 6, 1, 2, 1, 20]
}

/// The row prefix of the table of subtrees.
pub open spec fn smux_tree_entry() -> Seq<u32> {
    seq![1u32, 3, 6, 1, 2, 1, 20, 3, 1, 1]
}

/// The identity of a peer; `0.0` if it is not connected.
pub open spec fn peer_identity(peers: Map<u32, SmuxPeer>, id: u32) -> Seq<u32> {
    if peers.contains_key(id) {
        peers[id].identity@
    } else {
        seq![0u32, 0]
    }
}

/// The cells of one subtree: the subtree, its peer, and that the row is active(1).
pub open spec fn smux_tree_row(
    index: u32,
    sub: (Seq<u32>, u32),
    peers: Map<u32, SmuxPeer>,
) -> Seq<CellView> {
    let e = smux_tree_entry();
    seq![
        cell(e, 1, index, ValueView::Oid(sub.0)),
        cell(e, 2, index, ValueView::Oid(peer_identity(peers, sub.1))),
        cell(e, 5, index, ValueView::Integer(1)),
    ]
}

/// The cells of subtrees, numbered from one.
pub open spec fn smux_tree_rows(
    subs: Seq<(Seq<u32>, u32)>,
    peers: Map<u32, SmuxPeer>,
) -> Seq<CellView>
    decreases subs.len(),
{
    if subs.len() == 0 {
        seq![]
    } else {
        smux_tree_rows(subs.drop_last(), peers) + smux_tree_row(
            subs.len() as u32,
            subs.last(),
            peers,
        )
    }
}

/// The cells of the group: the number of peers, and the subtrees.
pub open spec fn smux_group(s: SmuxServer) -> Seq<CellView> {
    seq![cell(smux_mib_root(), 1, 0, ValueView::Integer(s.peers@.len() as i64))] + smux_tree_rows(
        owners(s.subtrees@),
        s.peers@,
    )
}

fn identity_of(server: &SmuxServer, id: u32) -> (r: Oid)
    ensures
        r@ == peer_identity(server.peers@, id),
{
    match server.peers.get(&id) {
        Some(p) => p.identity.clone(),
        None => {
            let o = Oid::null();
            assert(o@ =~= seq![0u32, 0]);
            o
        },
    }
}

/// The cells of the group.
pub fn smux_mib_cells(server: &SmuxServer) -> (r: Vec<(Oid, Value)>)
    ensures
        cells(r@) == smux_group(*server),
{
    let root: [u32; 7] = [1, 3, 6, 1, 2, 1, 20];
    let e: [u32; 10] = [1, 3, 6, 1, 2, 1, 20, 3, 1, 1];
    assert(root@ =~= smux_mib_root());
    assert(e@ =~= smux_tree_entry());
    let ghost subs = owners(server.subtrees@);
    let ghost peers = server.peers@;
    let mut out: Vec<(Oid, Value)> = Vec::new();
    let count: i64 = server.peers.len() as i64;
    push_row_cell(&mut out, &root, 1, 0, Value::Integer(count));
    let ghost first = seq![cell(smux_mib_root(), 1, 0, ValueView::Integer(count))];
    let mut i: usize = 0;
    proof {
        assert(subs.take(0) =~= Seq::<(Seq<u32>, u32)>::empty());
        assert(cells(out@) =~= first + smux_tree_rows(subs.take(0), peers));
    }
    while i < server.subtrees.len()
        invariant
            i <= server.subtrees@.len(),
            e@ == smux_tree_entry(),
            subs == owners(server.subtrees@),
            peers == server.peers@,
            cells(out@) == first + smux_tree_rows(subs.take(i as int), peers),
        decreases server.subtrees@.len() - i,
    {
        let ghost before = cells(out@);
        let index: u32 = row_number(i);
        let sub = &server.subtrees[i];
        proof {
            assert(subs.take(i + 1).drop_last() =~= subs.take(i as int));
            assert(subs.take(i + 1).last() == (sub.0@, sub.1));
        }
        let identity = identity_of(server, sub.1);
        push_row_cell(&mut out, &e, 1, index, Value::Oid(sub.0.clone()));
        push_row_cell(&mut out, &e, 2, index, Value::Oid(identity));
        push_row_cell(&mut out, &e, 5, index, Value::Integer(1));
        proof {
            assert(cells(out@) =~= before + smux_tree_row(index, (sub.0@, sub.1), peers));
            assert(cells(out@) =~= first + smux_tree_rows(subs.take(i + 1), peers));
        }
        i += 1;
    }
    assert(subs.take(i as int) =~= subs);
    out
}

/// The states of the handlers of the group.
pub open spec fn smux_states(s: SmuxServer) -> Seq<FnState> {
    seq![table_state(smux_mib_root(), smux_group(s))]
}

/// The handlers of the group.
pub fn smux_mib_handlers(server: &SmuxServer) -> (r: Vec<FnHandler>)
    ensures
        handler_states(r@) == smux_states(*server),
{
    let root = Oid::new(vec![1, 3, 6, 1, 2, 1, 20]);
    assert(root@ =~= smux_mib_root());
    let r = vec![FnHandler::table(root, smux_mib_cells(server))];
    assert(handler_states(r@) =~= smux_states(*server));
    r
}

/// Register the handlers of the group. They serve the rows as they are now; the
/// tables of later rows are put in their places with `reporting::update_tables`.
pub fn register_smux_mibs<P: MibHandler>(
    registry: &mut Registry<AnyHandler<P>>,
    server: &SmuxServer,
)
    requires
        old(registry).wf(),
    ensures
        final(registry).wf(),
        final(registry).states() == placed_all::<AnyHandler<P>>(
            old(registry).states(),
            table_states(smux_states(*server)),
        ),
{
    let mut handlers: Vec<AnyHandler<P>> = Vec::new();
    push_tables(&mut handlers, smux_mib_handlers(server));
    assert(handler_states(handlers@) =~= table_states::<P>(smux_states(*server)));
    registry.register_all(handlers);
}

} // verus!
