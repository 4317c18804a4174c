//! The access control tables as objects.

use vstd::prelude::*;

use crate::any_handler::push_tables;
use crate::any_handler::table_states;
use crate::any_handler::AnyHandler;
use crate::cells::cells;
use crate::cells::length_prefixed;
use crate::cells::push_cell;
use crate::cells::string_index;
use crate::cells::CellView;
use crate::handler::MibHandler;
use crate::oid::copy_arcs;
use crate::oid::Oid;
use crate::registry::handler_states;
use crate::registry::placed_all;
use crate::registry::Registry;
use crate::scalar::sorted_state;
use crate::scalar::FnHandler;
use crate::scalar::FnState;
use crate::vacm::ContextMatch;
use crate::vacm::Vacm;
use crate::vacm::VacmAccess;
use crate::vacm::VacmGroup;
use crate::vacm::VacmView;
use crate::value::copy_bytes;
use crate::value::Value;
use crate::value::ValueView;

verus! {

/// The row prefix of the context table.
pub open spec fn context_entry() -> Seq<u32> {
    seq![1u32, 3, 6, 1, 6, 3, 16, 1, 1]
}

/// The row prefix of the group table.
pub open spec fn s2g_entry() -> Seq<u32> {
    seq![1u32, 3, 6, 1, 6, 3, 16, 1, 2, 1]
}

/// The row prefix of the access table.
pub open spec fn access_entry() -> Seq<u32> {
    seq![1u32, 3, 6, 1, 6, 3, 16, 1, 4, 1]
}

/// The row prefix of the view table.
pub open spec fn view_entry() -> Seq<u32> {
    seq![1u32, 3, 6, 1, 6, 3, 16, 1, 5, 2, 1]
}

/// The cell of one context: its name.
pub open spec fn context_row(c: Seq<u8>) -> CellView {
    (context_entry().push(1) + length_prefixed(c), ValueView::OctetString(c))
}

/// The cells of contexts.
pub open spec fn context_rows(cs: Seq<Vec<u8>>) -> Seq<CellView> {
    cs.map_values(|c: Vec<u8>| context_row(c@))
}

/// The index of a group entry: the model and the name.
pub open spec fn s2g_index(g: VacmGroup) -> Seq<u32> {
    seq![g.security_model as u32] + length_prefixed(g.security_name@)
}

/// The cells of one group entry: the group, and that the row is volatile(2) and active(1).
pub open spec fn s2g_row(g: VacmGroup) -> Seq<CellView> {
    let e = s2g_entry();
    let i = s2g_index(g);
    seq![
        (e.push(3) + i, ValueView::OctetString(g.group@)),
        (e.push(4) + i, ValueView::Integer(2)),
        (e.push(5) + i, ValueView::Integer(1)),
    ]
}

/// The cells of group entries, one after the other.
pub open spec fn s2g_rows(gs: Seq<VacmGroup>) -> Seq<CellView>
    decreases gs.len(),
{
    if gs.len() == 0 {
        seq![]
    } else {
        s2g_rows(gs.drop_last()) + s2g_row(gs.last())
    }
}

/// The index of an access entry: group, context, model and level.
pub open spec fn access_index(a: VacmAccess) -> Seq<u32> {
    length_prefixed(a.group@) + length_prefixed(a.context_prefix@) + seq![
        a.security_model as u32,
        a.security_level as u32,
    ]
}

/// The name of a view; empty if there is none.
pub open spec fn view_or_empty(v: Option<Vec<u8>>) -> ValueView {
    match v {
        Some(n) => ValueView::OctetString(n@),
        None => ValueView::OctetString(seq![]),
    }
}

/// exact(1) or prefix(2).
pub open spec fn match_number(m: ContextMatch) -> i64 {
    match m {
        ContextMatch::Exact => 1,
        ContextMatch::Prefix => 2,
    }
}

/// The cells of one access entry.
pub open spec fn access_row(a: VacmAccess) -> Seq<CellView> {
    let e = access_entry();
    let i = access_index(a);
    seq![
        (e.push(4) + i, ValueView::Integer(match_number(a.context_match))),
        (e.push(5) + i, view_or_empty(a.read_view)),
        (e.push(6) + i, view_or_empty(a.write_view)),
        (e.push(7) + i, view_or_empty(a.notify_view)),
        (e.push(8) + i, ValueView::Integer(2)),
        (e.push(9) + i, ValueView::Integer(1)),
    ]
}

/// The cells of access entries, one after the other.
pub open spec fn access_rows(es: Seq<VacmAccess>) -> Seq<CellView>
    decreases es.len(),
{
    if es.len() == 0 {
        seq![]
    } else {
        access_rows(es.drop_last()) + access_row(es.last())
    }
}

/// An object identifier as an index: its length, and its arcs.
pub open spec fn oid_arcs(o: Seq<u32>) -> Seq<u32> {
    seq![o.len() as u32] + o
}

/// The index of a view family: the name of the view and the subtree.
pub open spec fn view_index(v: (Vec<u8>, VacmView)) -> Seq<u32> {
    length_prefixed(v.0@) + oid_arcs(v.1.subtree@)
}

/// The cells of one view family.
pub open spec fn view_row(v: (Vec<u8>, VacmView)) -> Seq<CellView> {
    let e = view_entry();
    let i = view_index(v);
    seq![
        (e.push(3) + i, ValueView::OctetString(v.1.mask@)),
        (e.push(4) + i, ValueView::Integer(v.1.typ.code_of())),
        (e.push(5) + i, ValueView::Integer(2)),
        (e.push(6) + i, ValueView::Integer(1)),
    ]
}

/// The cells of view families, one after the other.
pub open spec fn view_rows(vs: Seq<(Vec<u8>, VacmView)>) -> Seq<CellView>
    decreases vs.len(),
{
    if vs.len() == 0 {
        seq![]
    } else {
        view_rows(vs.drop_last()) + view_row(vs.last())
    }
}

/// An object identifier as an index.
pub fn oid_index(oid: &Oid) -> (r: Vec<u32>)
    ensures
        r@ == oid_arcs(oid@),
{
    let mut out: Vec<u32> = Vec::new();
    out.push(oid.len() as u32);
    let mut tail = copy_arcs(oid.as_slice());
    out.append(&mut tail);
    assert(out@ =~= oid_arcs(oid@));
    out
}

fn arc_of(n: i32) -> (r: u32)
    ensures
        r == n as u32,
{
    #[verifier::truncate]
    (n as u32)
}

/// The cells of the context table.
pub fn context_cells(vacm: &Vacm) -> (r: Vec<(Oid, Value)>)
    ensures
        cells(r@) == context_rows(vacm.context_list()),
{
    let e: [u32; 9] = [1, 3, 6, 1, 6, 3, 16, 1, 1];
    assert(e@ =~= context_entry());
    let cs = vacm.contexts();
    let ghost all = context_rows(cs@);
    let mut out: Vec<(Oid, Value)> = Vec::new();
    let mut i: usize = 0;
    assert(cells(out@) =~= all.take(0));
    while i < cs.len()
        invariant
            i <= cs@.len(),
            e@ == context_entry(),
            all == context_rows(cs@),
            cells(out@) == all.take(i as int),
        decreases cs@.len() - i,
    {
        let c = &cs[i];
        let index = string_index(c.as_slice());
        let name = copy_bytes(c.as_slice());
        push_cell(&mut out, &e, 1, index.as_slice(), Value::OctetString(name));
        assert(all.take(i + 1) =~= all.take(i as int).push(context_row(c@)));
        i += 1;
    }
    assert(all.take(i as int) =~= all);
    out
}

fn push_s2g_row(out: &mut Vec<(Oid, Value)>, g: &VacmGroup)
    ensures
        cells(final(out)@) == cells(old(out)@) + s2g_row(*g),
{
    let e: [u32; 10] = [1, 3, 6, 1, 6, 3, 16, 1, 2, 1];
    assert(e@ =~= s2g_entry());
    let ghost before = cells(out@);
    let mut index: Vec<u32> = Vec::new();
    index.push(arc_of(g.security_model));
    let mut name = string_index(g.security_name.as_slice());
    index.append(&mut name);
    assert(index@ =~= s2g_index(*g));
    let i = index.as_slice();
    push_cell(out, &e, 3, i, Value::OctetString(copy_bytes(g.group.as_slice())));
    push_cell(out, &e, 4, i, Value::Integer(2));
    push_cell(out, &e, 5, i, Value::Integer(1));
    assert(cells(out@) =~= before + s2g_row(*g));
}

/// The cells of the group table.
pub fn s2g_cells(vacm: &Vacm) -> (r: Vec<(Oid, Value)>)
    ensures
        cells(r@) == s2g_rows(vacm.group_list()),
{
    let gs = vacm.groups();
    let ghost all = gs@;
    let mut out: Vec<(Oid, Value)> = Vec::new();
    let mut i: usize = 0;
    proof {
        assert(all.take(0) =~= Seq::<VacmGroup>::empty());
        assert(cells(out@) =~= Seq::<CellView>::empty());
    }
    while i < gs.len()
        invariant
            i <= gs@.len(),
            all == gs@,
            cells(out@) == s2g_rows(all.take(i as int)),
        decreases gs@.len() - i,
    {
        proof {
            assert(all.take(i + 1).drop_last() =~= all.take(i as int));
            assert(all.take(i + 1).last() == all[i as int]);
        }
        push_s2g_row(&mut out, &gs[i]);
        i += 1;
    }
    assert(all.take(i as int) =~= all);
    out
}

fn view_value(v: &Option<Vec<u8>>) -> (r: Value)
    ensures
        r@ == view_or_empty(*v),
{
    match v {
        Some(n) => Value::OctetString(copy_bytes(n.as_slice())),
        None => {
            let none: Vec<u8> = Vec::new();
            assert(none@ =~= Seq::<u8>::empty());
            Value::OctetString(none)
        },
    }
}

fn push_access_row(out: &mut Vec<(Oid, Value)>, a: &VacmAccess)
    ensures
        cells(final(out)@) == cells(old(out)@) + access_row(*a),
{
    let e: [u32; 10] = [1, 3, 6, 1, 6, 3, 16, 1, 4, 1];
    assert(e@ =~= access_entry());
    let ghost before = cells(out@);
    let mut index = string_index(a.group.as_slice());
    let mut context = string_index(a.context_prefix.as_slice());
    index.append(&mut context);
    index.push(arc_of(a.security_model));
    index.push(arc_of(a.security_level));
    assert(index@ =~= access_index(*a));
    let i = index.as_slice();
    let number: i64 = match a.context_match {
        ContextMatch::Exact => 1,
        ContextMatch::Prefix => 2,
    };
    push_cell(out, &e, 4, i, Value::Integer(number));
    push_cell(out, &e, 5, i, view_value(&a.read_view));
    push_cell(out, &e, 6, i, view_value(&a.write_view));
    push_cell(out, &e, 7, i, view_value(&a.notify_view));
    push_cell(out, &e, 8, i, Value::Integer(2));
    push_cell(out, &e, 9, i, Value::Integer(1));
    assert(cells(out@) =~= before + access_row(*a));
}

/// The cells of the access table.
pub fn access_cells(vacm: &Vacm) -> (r: Vec<(Oid, Value)>)
    ensures
        cells(r@) == access_rows(vacm.access_list()),
{
    let es = vacm.access();
    let ghost all = es@;
    let mut out: Vec<(Oid, Value)> = Vec::new();
    let mut i: usize = 0;
    proof {
        assert(all.take(0) =~= Seq::<VacmAccess>::empty());
        assert(cells(out@) =~= Seq::<CellView>::empty());
    }
    while i < es.len()
        invariant
            i <= es@.len(),
            all == es@,
            cells(out@) == access_rows(all.take(i as int)),
        decreases es@.len() - i,
    {
        proof {
            assert(all.take(i + 1).drop_last() =~= all.take(i as int));
            assert(all.take(i + 1).last() == all[i as int]);
        }
        push_access_row(&mut out, &es[i]);
        i += 1;
    }
    assert(all.take(i as int) =~= all);
    out
}

fn push_view_row(out: &mut Vec<(Oid, Value)>, v: &(Vec<u8>, VacmView))
    ensures
        cells(final(out)@) == cells(old(out)@) + view_row(*v),
{
    let e: [u32; 11] = [1, 3, 6, 1, 6, 3, 16, 1, 5, 2, 1];
    assert(e@ =~= view_entry());
    let ghost before = cells(out@);
    let mut index = string_index(v.0.as_slice());
    let mut subtree = oid_index(&v.1.subtree);
    index.append(&mut subtree);
    assert(index@ =~= view_index(*v));
    let i = index.as_slice();
    push_cell(out, &e, 3, i, Value::OctetString(copy_bytes(v.1.mask.as_slice())));
    push_cell(out, &e, 4, i, Value::Integer(v.1.typ.code()));
    push_cell(out, &e, 5, i, Value::Integer(2));
    push_cell(out, &e, 6, i, Value::Integer(1));
    assert(cells(out@) =~= before + view_row(*v));
}

/// The cells of the view table.
pub fn view_cells(vacm: &Vacm) -> (r: Vec<(Oid, Value)>)
    ensures
        cells(r@) == view_rows(vacm.view_list()),
{
    let vs = vacm.views();
    let ghost all = vs@;
    let mut out: Vec<(Oid, Value)> = Vec::new();
    let mut i: usize = 0;
    proof {
        assert(all.take(0) =~= Seq::<(Vec<u8>, VacmView)>::empty());
        assert(cells(out@) =~= Seq::<CellView>::empty());
    }
    while i < vs.len()
        invariant
            i <= vs@.len(),
            all == vs@,
            cells(out@) == view_rows(all.take(i as int)),
        decreases vs@.len() - i,
    {
        proof {
            assert(all.take(i + 1).drop_last() =~= all.take(i as int));
            assert(all.take(i + 1).last() == all[i as int]);
        }
        push_view_row(&mut out, &vs[i]);
        i += 1;
    }
    assert(all.take(i as int) =~= all);
    out
}

/// The states of the handlers of the four tables.
pub open spec fn vacm_states(v: Vacm) -> Seq<FnState> {
    seq![
        sorted_state(context_entry(), context_rows(v.context_list())),
        sorted_state(s2g_entry(), s2g_rows(v.group_list())),
        sorted_state(access_entry(), access_rows(v.access_list())),
        sorted_state(view_entry(), view_rows(v.view_list())),
    ]
}

/// The handlers of the four tables.
pub fn vacm_handlers(vacm: &Vacm) -> (r: Vec<FnHandler>)
    ensures
        handler_states(r@) == vacm_states(*vacm),
{
    let a = Oid::new(vec![1, 3, 6, 1, 6, 3, 16, 1, 1]);
    let b = Oid::new(vec![1, 3, 6, 1, 6, 3, 16, 1, 2, 1]);
    let c = Oid::new(vec![1, 3, 6, 1, 6, 3, 16, 1, 4, 1]);
    let d = Oid::new(vec![1, 3, 6, 1, 6, 3, 16, 1, 5, 2, 1]);
    assert(a@ =~= context_entry());
    assert(b@ =~= s2g_entry());
    assert(c@ =~= access_entry());
    assert(d@ =~= view_entry());
    let r = vec![
        FnHandler::new(a, context_cells(vacm)),
        FnHandler::new(b, s2g_cells(vacm)),
        FnHandler::new(c, access_cells(vacm)),
        FnHandler::new(d, view_cells(vacm)),
    ];
    assert(handler_states(r@) =~= vacm_states(*vacm));
    r
}

/// Register the handlers of the four tables. They serve the rows as they are now; the
/// tables of later rows are put in their places with `reporting::update_tables`.
pub fn register_vacm_mibs<P: MibHandler>(registry: &mut Registry<AnyHandler<P>>, vacm: &Vacm)
    requires
        old(registry).wf(),
    ensures
        final(registry).wf(),
        final(registry).states() == placed_all::<AnyHandler<P>>(
            old(registry).states(),
            table_states(vacm_states(*vacm)),
        ),
{
    let mut handlers: Vec<AnyHandler<P>> = Vec::new();
    push_tables(&mut handlers, vacm_handlers(vacm));
    assert(handler_states(handlers@) =~= table_states::<P>(vacm_states(*vacm)));
    registry.register_all(handlers);
}

} // verus!
