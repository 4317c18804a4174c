//! The tables of notification targets as objects.

use vstd::prelude::*;

use crate::any_handler::push_tables;
use crate::any_handler::table_states;
use crate::any_handler::AnyHandler;
use crate::cells::cells;
use crate::cells::length_prefixed;
use crate::cells::push_cell;
use crate::cells::string_index;
use crate::cells::CellView;
use crate::handler::MibHandler;
use crate::inet::ipv4_of;
use crate::inet::parse_ipv4;
use crate::notify::uptime_ticks;
use crate::notify::ConfigView;
use crate::notify::NotifyConfig;
use crate::notify::NotifyEntry;
use crate::notify::NotifyView;
use crate::notify::ParamsView;
use crate::notify::TargetAddr;
use crate::notify::TargetParams;
use crate::notify::TargetView;
use crate::oid::Oid;
use crate::registry::handler_states;
use crate::registry::placed_all;
use crate::registry::Registry;
use crate::scalar::sorted_state;
use crate::scalar::FnHandler;
use crate::scalar::FnState;
use crate::text::chars_of;
use crate::text::lemma_rfind_char;
use crate::text::parse_unsigned;
use crate::text::rfind_char;
use crate::text::rposition;
use crate::text::slice_of;
use crate::text::unsigned_value;
use crate::value::bytes_of;
use crate::value::copy_bytes;
use crate::value::text_value;
use crate::value::utf8;
use crate::value::Value;
use crate::value::ValueView;

verus! {

/// The row prefix of the target table.
pub open spec fn target_addr_entry() -> Seq<u32> {
    seq![1u32, 3, 6, 1, 6, 3, 12, 1, 2, 1]
}

/// The row prefix of the table of security parameters.
pub open spec fn target_params_entry() -> Seq<u32> {
    seq![1u32, 3, 6, 1, 6, 3, 12, 1, 3, 1]
}

/// The row prefix of the notify table.
pub open spec fn notify_entry() -> Seq<u32> {
    seq![1u32, 3, 6, 1, 6, 3, 13, 1, 1, 1]
}

/// The octets of `host:port`: four of the address, two of the port; none if the host is no IPv4
/// address or the port no number of 16 bits.
pub open spec fn udp_address_of(s: Seq<char>) -> Seq<u8> {
    match rfind_char(s, ':') {
        Some(n) => match (
            ipv4_of(s.take(n as int)),
            unsigned_value(s.skip(n as int + 1), 10, u16::MAX as nat),
        ) {
            (Some(ip), Some(port)) => ip.octet_seq() + seq![(port / 256) as u8, (port % 256) as u8],
            _ => seq![],
        },
        None => seq![],
    }
}

/// The octets of `host:port`.
pub fn udp_address(host_port: &str) -> (r: Vec<u8>)
    ensures
        r@ == udp_address_of(host_port@),
{
    let v = chars_of(host_port);
    let mut out: Vec<u8> = Vec::new();
    assert(out@ =~= Seq::<u8>::empty());
    let n: usize = match rposition(v.as_slice(), ':') {
        Some(n) => n,
        None => {
            return out;
        },
    };
    proof {
        lemma_rfind_char(v@, ':');
    }
    let count: usize = v.len();
    assert(n < count);
    let host = slice_of(v.as_slice(), 0, n);
    let tail = slice_of(v.as_slice(), n + 1, count);
    assert(host@ =~= v@.take(n as int));
    assert(tail@ =~= v@.skip(n as int + 1));
    let ip = parse_ipv4(host.as_slice());
    let port = parse_unsigned(tail.as_slice(), 10, u16::MAX as u64);
    if let (Some(ip), Some(port)) = (ip, port) {
        out.push(ip.a);
        out.push(ip.b);
        out.push(ip.c);
        out.push(ip.d);
        out.push((port / 256) as u8);
        out.push((port % 256) as u8);
        assert(out@ =~= ip.octet_seq() + seq![(port / 256) as u8, (port % 256) as u8]);
    }
    out
}

/// A name as an index: its length, and one arc per byte.
pub open spec fn name_arcs(name: Seq<char>) -> Seq<u32> {
    length_prefixed(utf8(name))
}

fn name_index(name: &str) -> (r: Vec<u32>)
    ensures
        r@ == name_arcs(name@),
{
    let b = bytes_of(name);
    string_index(b.as_slice())
}

/// The cells of one target: domain, address, timeout, retries, tags, parameters, and that the row
/// is volatile(2) and active(1).
pub open spec fn target_row(t: TargetView) -> Seq<CellView> {
    let e = target_addr_entry();
    let i = name_arcs(t.name);
    seq![
        (e.push(2) + i, ValueView::Oid(seq![1u32, 3, 6, 1, 6, 1, 1])),
        (e.push(3) + i, ValueView::OctetString(udp_address_of(t.address))),
        (e.push(4) + i, ValueView::TimeTicks(uptime_ticks(t.timeout_ms))),
        (e.push(5) + i, ValueView::Integer(t.retries as i64)),
        (e.push(6) + i, ValueView::OctetString(utf8(t.name))),
        (e.push(7) + i, ValueView::OctetString(utf8(t.params_name))),
        (e.push(8) + i, ValueView::Integer(2)),
        (e.push(9) + i, ValueView::Integer(1)),
    ]
}

/// The cells of targets, one after the other.
pub open spec fn target_rows(ts: Seq<TargetView>) -> Seq<CellView>
    decreases ts.len(),
{
    if ts.len() == 0 {
        seq![]
    } else {
        target_rows(ts.drop_last()) + target_row(ts.last())
    }
}

/// The cells of one set of security parameters.
pub open spec fn params_row(p: ParamsView) -> Seq<CellView> {
    let e = target_params_entry();
    let i = name_arcs(p.name);
    seq![
        (e.push(2) + i, ValueView::Integer(p.mp_model as i64)),
        (e.push(3) + i, ValueView::Integer(p.security_model as i64)),
        (e.push(4) + i, ValueView::OctetString(p.security_name)),
        (e.push(5) + i, ValueView::Integer(p.security_level as i64)),
        (e.push(6) + i, ValueView::Integer(2)),
        (e.push(7) + i, ValueView::Integer(1)),
    ]
}

/// The cells of security parameters, one after the other.
pub open spec fn params_rows(ps: Seq<ParamsView>) -> Seq<CellView>
    decreases ps.len(),
{
    if ps.len() == 0 {
        seq![]
    } else {
        params_rows(ps.drop_last()) + params_row(ps.last())
    }
}

/// The cells of one notify entry.
pub open spec fn notify_row(n: NotifyView) -> Seq<CellView> {
    let e = notify_entry();
    let i = name_arcs(n.name);
    seq![
        (e.push(2) + i, ValueView::OctetString(utf8(n.tag))),
        (e.push(3) + i, ValueView::Integer(n.typ.number())),
        (e.push(4) + i, ValueView::Integer(2)),
        (e.push(5) + i, ValueView::Integer(1)),
    ]
}

/// The cells of notify entries, one after the other.
pub open spec fn notify_rows(ns: Seq<NotifyView>) -> Seq<CellView>
    decreases ns.len(),
{
    if ns.len() == 0 {
        seq![]
    } else {
        notify_rows(ns.drop_last()) + notify_row(ns.last())
    }
}

fn push_target_row(out: &mut Vec<(Oid, Value)>, t: &TargetAddr)
    ensures
        cells(final(out)@) == cells(old(out)@) + target_row(t@),
{
    let e: [u32; 10] = [1, 3, 6, 1, 6, 3, 12, 1, 2, 1];
    assert(e@ =~= target_addr_entry());
    let ghost before = cells(out@);
    let index = name_index(t.name.as_str());
    let i = index.as_slice();
    let domain = Oid::new(vec![1, 3, 6, 1, 6, 1, 1]);
    assert(domain@ =~= seq![1u32, 3, 6, 1, 6, 1, 1]);
    let ticks: u32 = ((t.timeout_ms / 10) % 0x1_0000_0000) as u32;
    push_cell(out, &e, 2, i, Value::Oid(domain));
    push_cell(out, &e, 3, i, Value::OctetString(udp_address(t.address.as_str())));
    push_cell(out, &e, 4, i, Value::TimeTicks(ticks));
    push_cell(out, &e, 5, i, Value::Integer(t.retries as i64));
    push_cell(out, &e, 6, i, text_value(t.name.as_str()));
    push_cell(out, &e, 7, i, text_value(t.params_name.as_str()));
    push_cell(out, &e, 8, i, Value::Integer(2));
    push_cell(out, &e, 9, i, Value::Integer(1));
    assert(cells(out@) =~= before + target_row(t@));
}

fn push_params_row(out: &mut Vec<(Oid, Value)>, p: &TargetParams)
    ensures
        cells(final(out)@) == cells(old(out)@) + params_row(p@),
{
    let e: [u32; 10] = [1, 3, 6, 1, 6, 3, 12, 1, 3, 1];
    assert(e@ =~= target_params_entry());
    let ghost before = cells(out@);
    let index = name_index(p.name.as_str());
    let i = index.as_slice();
    let name = copy_bytes(p.security_name.as_slice());
    push_cell(out, &e, 2, i, Value::Integer(p.mp_model as i64));
    push_cell(out, &e, 3, i, Value::Integer(p.security_model as i64));
    push_cell(out, &e, 4, i, Value::OctetString(name));
    push_cell(out, &e, 5, i, Value::Integer(p.security_level as i64));
    push_cell(out, &e, 6, i, Value::Integer(2));
    push_cell(out, &e, 7, i, Value::Integer(1));
    assert(cells(out@) =~= before + params_row(p@));
}

fn push_notify_row(out: &mut Vec<(Oid, Value)>, n: &NotifyEntry)
    ensures
        cells(final(out)@) == cells(old(out)@) + notify_row(n@),
{
    let e: [u32; 10] = [1, 3, 6, 1, 6, 3, 13, 1, 1, 1];
    assert(e@ =~= notify_entry());
    let ghost before = cells(out@);
    let index = name_index(n.name.as_str());
    let i = index.as_slice();
    push_cell(out, &e, 2, i, text_value(n.tag.as_str()));
    push_cell(out, &e, 3, i, Value::Integer(n.typ.as_int()));
    push_cell(out, &e, 4, i, Value::Integer(2));
    push_cell(out, &e, 5, i, Value::Integer(1));
    assert(cells(out@) =~= before + notify_row(n@));
}

/// The cells of the target table.
pub fn target_addr_cells(config: &NotifyConfig) -> (r: Vec<(Oid, Value)>)
    ensures
        cells(r@) == target_rows(config@.targets),
{
    let ts = config.targets();
    let ghost all = config@.targets;
    let mut out: Vec<(Oid, Value)> = Vec::new();
    let mut i: usize = 0;
    proof {
        assert(all.take(0) =~= Seq::<TargetView>::empty());
        assert(cells(out@) =~= Seq::<CellView>::empty());
    }
    while i < ts.len()
        invariant
            i <= ts@.len(),
            all == ts@.map_values(|t: TargetAddr| t@),
            cells(out@) == target_rows(all.take(i as int)),
        decreases ts@.len() - i,
    {
        proof {
            assert(all.take(i + 1).drop_last() =~= all.take(i as int));
            assert(all.take(i + 1).last() == ts@[i as int]@);
        }
        push_target_row(&mut out, &ts[i]);
        i += 1;
    }
    assert(all.take(i as int) =~= all);
    out
}

/// The cells of the table of security parameters.
pub fn target_params_cells(config: &NotifyConfig) -> (r: Vec<(Oid, Value)>)
    ensures
        cells(r@) == params_rows(config@.params),
{
    let ps = config.params();
    let ghost all = config@.params;
    let mut out: Vec<(Oid, Value)> = Vec::new();
    let mut i: usize = 0;
    proof {
        assert(all.take(0) =~= Seq::<ParamsView>::empty());
        assert(cells(out@) =~= Seq::<CellView>::empty());
    }
    while i < ps.len()
        invariant
            i <= ps@.len(),
            all == ps@.map_values(|p: TargetParams| p@),
            cells(out@) == params_rows(all.take(i as int)),
        decreases ps@.len() - i,
    {
        proof {
            assert(all.take(i + 1).drop_last() =~= all.take(i as int));
            assert(all.take(i + 1).last() == ps@[i as int]@);
        }
        push_params_row(&mut out, &ps[i]);
        i += 1;
    }
    assert(all.take(i as int) =~= all);
    out
}

/// The cells of the notify table.
pub fn notify_cells(config: &NotifyConfig) -> (r: Vec<(Oid, Value)>)
    ensures
        cells(r@) == notify_rows(config@.notifies),
{
    let ns = config.notifies();
    let ghost all = config@.notifies;
    let mut out: Vec<(Oid, Value)> = Vec::new();
    let mut i: usize = 0;
    proof {
        assert(all.take(0) =~= Seq::<NotifyView>::empty());
        assert(cells(out@) =~= Seq::<CellView>::empty());
    }
    while i < ns.len()
        invariant
            i <= ns@.len(),
            all == ns@.map_values(|n: NotifyEntry| n@),
            cells(out@) == notify_rows(all.take(i as int)),
        decreases ns@.len() - i,
    {
        proof {
            assert(all.take(i + 1).drop_last() =~= all.take(i as int));
            assert(all.take(i + 1).last() == ns@[i as int]@);
        }
        push_notify_row(&mut out, &ns[i]);
        i += 1;
    }
    assert(all.take(i as int) =~= all);
    out
}

/// The states of the handlers of the three tables.
pub open spec fn notify_states(c: ConfigView) -> Seq<FnState> {
    seq![
        sorted_state(target_addr_entry(), target_rows(c.targets)),
        sorted_state(target_params_entry(), params_rows(c.params)),
        sorted_state(notify_entry(), notify_rows(c.notifies)),
    ]
}

/// The handlers of the three tables.
pub fn notify_handlers(config: &NotifyConfig) -> (r: Vec<FnHandler>)
    ensures
        handler_states(r@) == notify_states(config@),
{
    let a = Oid::new(vec![1, 3, 6, 1, 6, 3, 12, 1, 2, 1]);
    let b = Oid::new(vec![1, 3, 6, 1, 6, 3, 12, 1, 3, 1]);
    let c = Oid::new(vec![1, 3, 6, 1, 6, 3, 13, 1, 1, 1]);
    assert(a@ =~= target_addr_entry());
    assert(b@ =~= target_params_entry());
    assert(c@ =~= notify_entry());
    let r = vec![
        FnHandler::new(a, target_addr_cells(config)),
        FnHandler::new(b, target_params_cells(config)),
        FnHandler::new(c, notify_cells(config)),
    ];
    assert(handler_states(r@) =~= notify_states(config@));
    r
}

/// Register the handlers of the three tables. They serve the rows as they are now; the
/// tables of later rows are put in their places with `reporting::update_tables`.
pub fn register_notify_mibs<P: MibHandler>(
    registry: &mut Registry<AnyHandler<P>>,
    config: &NotifyConfig,
)
    requires
        old(registry).wf(),
    ensures
        final(registry).wf(),
        final(registry).states() == placed_all::<AnyHandler<P>>(
            old(registry).states(),
            table_states(notify_states(config@)),
        ),
{
    let mut handlers: Vec<AnyHandler<P>> = Vec::new();
    push_tables(&mut handlers, notify_handlers(config));
    assert(handler_states(handlers@) =~= table_states::<P>(notify_states(config@)));
    registry.register_all(handlers);
}

} // verus!
