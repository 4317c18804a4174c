//! The interfaces group: `ifNumber`, `ifTable` and `ifXTable`.

use vstd::prelude::*;

use crate::cells::cell;
use crate::cells::cells;
use crate::cells::collect_cells;
use crate::cells::is_table_of;
use crate::cells::push_row_cell;
use crate::cells::CellView;
use crate::handler::MibHandler;
use crate::oid::Oid;
use crate::scalar::table_state;
use crate::scalar::FnHandler;
use crate::scalar::FnState;
use crate::text::chars_of;
use crate::text::parse_unsigned;
use crate::text::split;
use crate::text::split_at_char;
use crate::text::texts;
use crate::text::trim;
use crate::text::trimmed;
use crate::text::unsigned_value;
use crate::value::copy_bytes;
use crate::value::text_value;
use crate::value::utf8;
use crate::value::Value;
use crate::value::ValueView;

verus! {

/// Per-interface traffic counters.
#[derive(Debug, Default, PartialEq, Eq)]
pub struct IfStat {
    /// Interface name.
    pub name: String,
    /// Total bytes received.
    pub rx_bytes: u64,
    /// Total packets received.
    pub rx_packets: u64,
    /// Receive errors.
    pub rx_errs: u64,
    /// Receive packets dropped.
    pub rx_drop: u64,
    /// Total bytes transmitted.
    pub tx_bytes: u64,
    /// Total packets transmitted.
    pub tx_packets: u64,
    /// Transmit errors.
    pub tx_errs: u64,
    /// Transmit packets dropped.
    pub tx_drop: u64,
}

/// One interface.
#[derive(Debug, PartialEq, Eq)]
pub struct Interface {
    /// `ifIndex`, from one.
    pub index: u32,
    /// `ifType`: 6 is an Ethernet interface, 24 a software loopback.
    pub if_type: i64,
    /// `ifMtu`.
    pub mtu: i64,
    /// `ifSpeed` in bits per second (0 when unknown).
    pub speed_bps: u32,
    /// `ifPhysAddress`.
    pub phys_address: Vec<u8>,
    /// Whether the interface is administratively up.
    pub admin_up: bool,
    /// Whether the interface is operationally up.
    pub oper_up: bool,
    /// Traffic counters.
    pub stat: IfStat,
}

/// The octets that the parts of a hardware address spell, those that spell none left out.
pub open spec fn mac_octets(parts: Seq<Seq<char>>) -> Seq<u8>
    decreases parts.len(),
{
    if parts.len() == 0 {
        seq![]
    } else {
        match unsigned_value(parts.last(), 16, 255) {
            Some(n) => mac_octets(parts.drop_last()).push(n as u8),
            None => mac_octets(parts.drop_last()),
        }
    }
}

/// Parse a hardware address of hexadecimal octets with colons between them. A part that is no
/// octet is left out.
pub fn parse_mac(s: &str) -> (r: Vec<u8>)
    ensures
        r@ == mac_octets(split(trim(s@), ':')),
{
    let v = chars_of(s);
    let t = trimmed(v.as_slice());
    let parts = split_at_char(t.as_slice(), ':');
    let ghost all = texts(parts@);
    let mut out: Vec<u8> = Vec::new();
    let mut i: usize = 0;
    assert(all.take(0) =~= Seq::<Seq<char>>::empty());
    while i < parts.len()
        invariant
            i <= parts@.len(),
            all == texts(parts@),
            out@ == mac_octets(all.take(i as int)),
        decreases parts@.len() - i,
    {
        proof {
            assert(all.take(i + 1).drop_last() =~= all.take(i as int));
            assert(all.take(i + 1).last() == parts@[i as int]@);
        }
        if let Some(n) = parse_unsigned(parts[i].as_slice(), 16, 255) {
            out.push(n as u8);
        }
        i += 1;
    }
    assert(all.take(i as int) =~= all);
    out
}

/// The root of the interfaces group.
pub open spec fn interfaces_root() -> Seq<u32> {
    seq![1u32, 3, 6, 1, 2, 1, 2]
}

/// The row prefix of `ifTable`.
pub open spec fn if_entry() -> Seq<u32> {
    seq![1u32, 3, 6, 1, 2, 1, 2, 2, 1]
}

/// The root of the interface extensions.
pub open spec fn if_mib_root() -> Seq<u32> {
    seq![1u32, 3, 6, 1, 2, 1, 31]
}

/// The row prefix of `ifXTable`.
pub open spec fn if_x_entry() -> Seq<u32> {
    seq![1u32, 3, 6, 1, 2, 1, 31, 1, 1, 1]
}

/// The low 32 bits of a counter.
pub open spec fn low32(n: u64) -> u32 {
    (n % 0x1_0000_0000) as u32
}

/// up(1) or down(2).
pub open spec fn up_down(up: bool) -> ValueView {
    ValueView::Integer(
        if up {
            1
        } else {
            2
        },
    )
}

/// The cells of an interface in `ifTable`.
pub open spec fn if_row(f: Interface) -> Seq<CellView> {
    let e = if_entry();
    let i = f.index;
    seq![
        cell(e, 1, i, ValueView::Integer(i as i64)),
        cell(e, 2, i, ValueView::OctetString(utf8(f.stat.name@))),
        cell(e, 3, i, ValueView::Integer(f.if_type)),
        cell(e, 4, i, ValueView::Integer(f.mtu)),
        cell(e, 5, i, ValueView::Gauge32(f.speed_bps)),
        cell(e, 6, i, ValueView::OctetString(f.phys_address@)),
        cell(e, 7, i, up_down(f.admin_up)),
        cell(e, 8, i, up_down(f.oper_up)),
        cell(e, 9, i, ValueView::TimeTicks(0)),
        cell(e, 10, i, ValueView::Counter32(low32(f.stat.rx_bytes))),
        cell(e, 11, i, ValueView::Counter32(low32(f.stat.rx_packets))),
        cell(e, 13, i, ValueView::Counter32(low32(f.stat.rx_drop))),
        cell(e, 14, i, ValueView::Counter32(low32(f.stat.rx_errs))),
        cell(e, 16, i, ValueView::Counter32(low32(f.stat.tx_bytes))),
        cell(e, 17, i, ValueView::Counter32(low32(f.stat.tx_packets))),
        cell(e, 19, i, ValueView::Counter32(low32(f.stat.tx_drop))),
        cell(e, 20, i, ValueView::Counter32(low32(f.stat.tx_errs))),
    ]
}

/// The cells of all interfaces in `ifTable`, row by row.
pub open spec fn if_rows(fs: Seq<Interface>) -> Seq<CellView>
    decreases fs.len(),
{
    if fs.len() == 0 {
        seq![]
    } else {
        if_rows(fs.drop_last()) + if_row(fs.last())
    }
}

/// The cells of an interface in `ifXTable`.
pub open spec fn if_x_row(f: Interface) -> Seq<CellView> {
    let e = if_x_entry();
    let i = f.index;
    seq![
        cell(e, 1, i, ValueView::OctetString(utf8(f.stat.name@))),
        cell(e, 2, i, ValueView::Counter32(0)),
        cell(e, 3, i, ValueView::Counter32(0)),
        cell(e, 4, i, ValueView::Counter32(0)),
        cell(e, 5, i, ValueView::Counter32(0)),
        cell(e, 6, i, ValueView::Counter64(f.stat.rx_bytes)),
        cell(e, 7, i, ValueView::Counter64(f.stat.rx_packets)),
        cell(e, 10, i, ValueView::Counter64(f.stat.tx_bytes)),
        cell(e, 11, i, ValueView::Counter64(f.stat.tx_packets)),
        cell(e, 15, i, ValueView::Gauge32((f.speed_bps / 1_000_000) as u32)),
        cell(e, 18, i, ValueView::OctetString(utf8(f.stat.name@))),
    ]
}

/// The cells of all interfaces in `ifXTable`, row by row.
pub open spec fn if_x_rows(fs: Seq<Interface>) -> Seq<CellView>
    decreases fs.len(),
{
    if fs.len() == 0 {
        seq![]
    } else {
        if_x_rows(fs.drop_last()) + if_x_row(fs.last())
    }
}

fn low(n: u64) -> (r: u32)
    ensures
        r == low32(n),
{
    (n % 0x1_0000_0000) as u32
}

fn status(up: bool) -> (r: Value)
    ensures
        r@ == up_down(up),
{
    if up {
        Value::Integer(1)
    } else {
        Value::Integer(2)
    }
}

fn push_if_row(out: &mut Vec<(Oid, Value)>, f: &Interface)
    ensures
        cells(final(out)@) == cells(old(out)@) + if_row(*f),
{
    let e: [u32; 9] = [1, 3, 6, 1, 2, 1, 2, 2, 1];
    assert(e@ =~= if_entry());
    let ghost before = cells(out@);
    let i: u32 = f.index;
    push_row_cell(out, &e, 1, i, Value::Integer(i as i64));
    push_row_cell(out, &e, 2, i, text_value(f.stat.name.as_str()));
    push_row_cell(out, &e, 3, i, Value::Integer(f.if_type));
    push_row_cell(out, &e, 4, i, Value::Integer(f.mtu));
    push_row_cell(out, &e, 5, i, Value::Gauge32(f.speed_bps));
    push_row_cell(out, &e, 6, i, Value::OctetString(copy_bytes(f.phys_address.as_slice())));
    push_row_cell(out, &e, 7, i, status(f.admin_up));
    push_row_cell(out, &e, 8, i, status(f.oper_up));
    push_row_cell(out, &e, 9, i, Value::TimeTicks(0));
    push_row_cell(out, &e, 10, i, Value::Counter32(low(f.stat.rx_bytes)));
    push_row_cell(out, &e, 11, i, Value::Counter32(low(f.stat.rx_packets)));
    push_row_cell(out, &e, 13, i, Value::Counter32(low(f.stat.rx_drop)));
    push_row_cell(out, &e, 14, i, Value::Counter32(low(f.stat.rx_errs)));
    push_row_cell(out, &e, 16, i, Value::Counter32(low(f.stat.tx_bytes)));
    push_row_cell(out, &e, 17, i, Value::Counter32(low(f.stat.tx_packets)));
    push_row_cell(out, &e, 19, i, Value::Counter32(low(f.stat.tx_drop)));
    push_row_cell(out, &e, 20, i, Value::Counter32(low(f.stat.tx_errs)));
    assert(cells(out@) =~= before + if_row(*f));
}

fn push_if_x_row(out: &mut Vec<(Oid, Value)>, f: &Interface)
    ensures
        cells(final(out)@) == cells(old(out)@) + if_x_row(*f),
{
    let e: [u32; 10] = [1, 3, 6, 1, 2, 1, 31, 1, 1, 1];
    assert(e@ =~= if_x_entry());
    let ghost before = cells(out@);
    let i: u32 = f.index;
    push_row_cell(out, &e, 1, i, text_value(f.stat.name.as_str()));
    push_row_cell(out, &e, 2, i, Value::Counter32(0));
    push_row_cell(out, &e, 3, i, Value::Counter32(0));
    push_row_cell(out, &e, 4, i, Value::Counter32(0));
    push_row_cell(out, &e, 5, i, Value::Counter32(0));
    push_row_cell(out, &e, 6, i, Value::Counter64(f.stat.rx_bytes));
    push_row_cell(out, &e, 7, i, Value::Counter64(f.stat.rx_packets));
    push_row_cell(out, &e, 10, i, Value::Counter64(f.stat.tx_bytes));
    push_row_cell(out, &e, 11, i, Value::Counter64(f.stat.tx_packets));
    push_row_cell(out, &e, 15, i, Value::Gauge32(f.speed_bps / 1_000_000));
    push_row_cell(out, &e, 18, i, text_value(f.stat.name.as_str()));
    assert(cells(out@) =~= before + if_x_row(*f));
}

fn raw_if_cells(interfaces: &[Interface]) -> (r: Vec<(Oid, Value)>)
    ensures
        cells(r@) == if_rows(interfaces@),
{
    let mut out: Vec<(Oid, Value)> = Vec::new();
    let mut i: usize = 0;
    proof {
        assert(interfaces@.take(0) =~= Seq::<Interface>::empty());
        assert(cells(out@) =~= Seq::<CellView>::empty());
    }
    while i < interfaces.len()
        invariant
            i <= interfaces@.len(),
            cells(out@) == if_rows(interfaces@.take(i as int)),
        decreases interfaces@.len() - i,
    {
        proof {
            assert(interfaces@.take(i + 1).drop_last() =~= interfaces@.take(i as int));
        }
        push_if_row(&mut out, &interfaces[i]);
        i += 1;
    }
    assert(interfaces@.take(i as int) =~= interfaces@);
    out
}

fn raw_if_x_cells(interfaces: &[Interface]) -> (r: Vec<(Oid, Value)>)
    ensures
        cells(r@) == if_x_rows(interfaces@),
{
    let mut out: Vec<(Oid, Value)> = Vec::new();
    let mut i: usize = 0;
    proof {
        assert(interfaces@.take(0) =~= Seq::<Interface>::empty());
        assert(cells(out@) =~= Seq::<CellView>::empty());
    }
    while i < interfaces.len()
        invariant
            i <= interfaces@.len(),
            cells(out@) == if_x_rows(interfaces@.take(i as int)),
        decreases interfaces@.len() - i,
    {
        proof {
            assert(interfaces@.take(i + 1).drop_last() =~= interfaces@.take(i as int));
        }
        push_if_x_row(&mut out, &interfaces[i]);
        i += 1;
    }
    assert(interfaces@.take(i as int) =~= interfaces@);
    out
}

/// The cells of `ifTable`, in order.
pub fn interface_cells(interfaces: &[Interface]) -> (r: Vec<(Oid, Value)>)
    ensures
        is_table_of(cells(r@), if_rows(interfaces@)),
{
    collect_cells(raw_if_cells(interfaces))
}

/// The cells of `ifXTable`, in order.
pub fn if_xtable_cells(interfaces: &[Interface]) -> (r: Vec<(Oid, Value)>)
    ensures
        is_table_of(cells(r@), if_x_rows(interfaces@)),
{
    collect_cells(raw_if_x_cells(interfaces))
}

/// The `ifNumber` handler.
pub fn if_number_handler(interfaces: &[Interface]) -> (r: FnHandler)
    ensures
        r.state() == (FnState {
            root: interfaces_root().push(1),
            cells: seq![
                (
                    interfaces_root().push(1).push(0),
                    ValueView::Integer(interfaces@.len() as i64),
                ),
            ],
        }),
{
    let root = Oid::new(vec![1, 3, 6, 1, 2, 1, 2, 1]);
    assert(root@ =~= interfaces_root().push(1));
    FnHandler::scalar(root, Value::Integer(interfaces.len() as i64))
}

/// The `ifTable` handler.
pub fn if_table_handler(interfaces: &[Interface]) -> (r: FnHandler)
    ensures
        r.state() == table_state(interfaces_root().push(2), if_rows(interfaces@)),
{
    let root = Oid::new(vec![1, 3, 6, 1, 2, 1, 2, 2]);
    assert(root@ =~= interfaces_root().push(2));
    FnHandler::table(root, raw_if_cells(interfaces))
}

/// The `ifXTable` handler.
pub fn if_xtable_handler(interfaces: &[Interface]) -> (r: FnHandler)
    ensures
        r.state() == table_state(if_mib_root(), if_x_rows(interfaces@)),
{
    let root = Oid::new(vec![1, 3, 6, 1, 2, 1, 31]);
    assert(root@ =~= if_mib_root());
    FnHandler::table(root, raw_if_x_cells(interfaces))
}

} // verus!
