//! The UDP group: its counters and the listener table.

use vstd::prelude::*;

use crate::cells::all_rows;
use crate::cells::append_cells;
use crate::cells::cell;
use crate::cells::cells;
use crate::cells::collect_cells;
use crate::cells::is_table_of;
use crate::cells::push_cell;
use crate::cells::push_row_cell;
use crate::cells::row_cells;
use crate::cells::CellView;
use crate::cells::Row;
use crate::mibgroup::kernel_text::below_heading;
use crate::mibgroup::kernel_text::columns_of;
use crate::mibgroup::kernel_text::counter_of;
use crate::mibgroup::kernel_text::endpoint_of;
use crate::mibgroup::kernel_text::find_columns;
use crate::mibgroup::kernel_text::parse_endpoint;
use crate::mibgroup::kernel_text::rows_below;
use crate::oid::Oid;
use crate::registry::handler_states;
use crate::scalar::table_state;
use crate::scalar::FnHandler;
use crate::text::split_words;
use crate::text::texts;
use crate::text::words;
use crate::value::Ipv4Addr;
use crate::value::Value;
use crate::value::ValueView;

verus! {

/// The counters of the protocol.
#[derive(Clone, Copy, Debug, Default, PartialEq, Eq, Structural)]
pub struct UdpScalars {
    /// `udpInDatagrams`.
    pub in_datagrams: u32,
    /// `udpNoPorts`.
    pub no_ports: u32,
    /// `udpInErrors`.
    pub in_errors: u32,
    /// `udpOutDatagrams`.
    pub out_datagrams: u32,
}

/// Counters that are all zero.
pub open spec fn no_udp() -> UdpScalars {
    UdpScalars {
        in_datagrams: 0,
        no_ports: 0,
        in_errors: 0,
        out_datagrams: 0,
    }
}

/// The counters that a text of the kernel holds behind `Udp:`; zero where it holds none.
pub open spec fn udp_scalars_of(text: Seq<char>) -> UdpScalars {
    match columns_of(text, "Udp:"@) {
        Some(c) => UdpScalars {
            in_datagrams: counter_of(c, "InDatagrams"@, false),
            no_ports: counter_of(c, "NoPorts"@, false),
            in_errors: counter_of(c, "InErrors"@, false),
            out_datagrams: counter_of(c, "OutDatagrams"@, false),
        },
        None => no_udp(),
    }
}

/// Read the counters that a text of the kernel holds behind `Udp:`.
pub fn parse_udp_scalars(snmp: &str) -> (r: UdpScalars)
    ensures
        r == udp_scalars_of(snmp@),
{
    match find_columns(snmp, "Udp:") {
        Some(c) => UdpScalars {
            in_datagrams: c.counter("InDatagrams", false),
            no_ports: c.counter("NoPorts", false),
            in_errors: c.counter("InErrors", false),
            out_datagrams: c.counter("OutDatagrams", false),
        },
        None => UdpScalars {
            in_datagrams: 0,
            no_ports: 0,
            in_errors: 0,
            out_datagrams: 0,
        },
    }
}

/// The root of the group.
pub open spec fn udp_root() -> Seq<u32> {
    seq![1u32, 3, 6, 1, 2, 1, 7]
}

/// The cells of the counters.
pub open spec fn udp_scalar_rows(s: UdpScalars) -> Seq<CellView> {
    let e = udp_root();
    seq![
        cell(e, 1, 0, ValueView::Counter32(s.in_datagrams)),
        cell(e, 2, 0, ValueView::Counter32(s.no_ports)),
        cell(e, 3, 0, ValueView::Counter32(s.in_errors)),
        cell(e, 4, 0, ValueView::Counter32(s.out_datagrams)),
    ]
}

fn raw_scalar_cells(s: &UdpScalars) -> (r: Vec<(Oid, Value)>)
    ensures
        cells(r@) == udp_scalar_rows(*s),
{
    let e: [u32; 7] = [1, 3, 6, 1, 2, 1, 7];
    assert(e@ =~= udp_root());
    let mut out: Vec<(Oid, Value)> = Vec::new();
    push_row_cell(&mut out, &e, 1, 0, Value::Counter32(s.in_datagrams));
    push_row_cell(&mut out, &e, 2, 0, Value::Counter32(s.no_ports));
    push_row_cell(&mut out, &e, 3, 0, Value::Counter32(s.in_errors));
    push_row_cell(&mut out, &e, 4, 0, Value::Counter32(s.out_datagrams));
    assert(cells(out@) =~= udp_scalar_rows(*s));
    out
}

/// The cells of the counters, in order.
pub fn udp_scalar_cells(scalars: &UdpScalars) -> (r: Vec<(Oid, Value)>)
    ensures
        is_table_of(cells(r@), udp_scalar_rows(*scalars)),
{
    collect_cells(raw_scalar_cells(scalars))
}

/// One listener.
#[derive(Clone, Copy, Debug, PartialEq, Eq, Structural)]
pub struct UdpEntry {
    /// The local address.
    pub local_addr: Ipv4Addr,
    /// The local port.
    pub local_port: u16,
}

/// The listener of a line; none if the line is malformed.
pub open spec fn udp_line(line: Seq<char>) -> Option<UdpEntry> {
    let w = words(line);
    if w.len() < 2 {
        None
    } else {
        match endpoint_of(w[1]) {
            Some((local_addr, local_port)) => Some(UdpEntry { local_addr, local_port }),
            None => None,
        }
    }
}

fn parse_udp_line(line: &[char]) -> (r: Option<UdpEntry>)
    ensures
        r == udp_line(line@),
{
    let w = split_words(line);
    let ghost ws = texts(w@);
    if w.len() < 2 {
        return None;
    }
    assert(ws[1] == w@[1]@);
    match parse_endpoint(w[1].as_slice()) {
        Some((local_addr, local_port)) => Some(UdpEntry { local_addr, local_port }),
        None => None,
    }
}

/// The listeners of lines.
pub open spec fn udp_entries_of(ls: Seq<Seq<char>>) -> Seq<UdpEntry>
    decreases ls.len(),
{
    if ls.len() == 0 {
        seq![]
    } else {
        match udp_line(ls.last()) {
            Some(x) => udp_entries_of(ls.drop_last()).push(x),
            None => udp_entries_of(ls.drop_last()),
        }
    }
}

/// Read the listeners of a text of the kernel, below its heading. Malformed lines are left out.
pub fn parse_udp_entries(udp: &str) -> (r: Vec<UdpEntry>)
    ensures
        r@ == udp_entries_of(below_heading(udp@)),
{
    let ls = rows_below(udp);
    let ghost all = texts(ls@);
    let mut out: Vec<UdpEntry> = Vec::new();
    let mut i: usize = 0;
    assert(all.take(0) =~= Seq::<Seq<char>>::empty());
    while i < ls.len()
        invariant
            i <= ls@.len(),
            all == texts(ls@),
            out@ == udp_entries_of(all.take(i as int)),
        decreases ls@.len() - i,
    {
        proof {
            assert(all.take(i + 1).drop_last() =~= all.take(i as int));
            assert(all.take(i + 1).last() == ls@[i as int]@);
        }
        if let Some(x) = parse_udp_line(ls[i].as_slice()) {
            out.push(x);
        }
        i += 1;
    }
    assert(all.take(i as int) =~= all);
    out
}

/// The row prefix of the listener table.
pub open spec fn udp_entry() -> Seq<u32> {
    seq![1u32, 3, 6, 1, 2, 1, 7, 5, 1, 1]
}

/// The index of a listener: its address and port.
pub open spec fn udp_index(u: UdpEntry) -> Seq<u32> {
    u.local_addr.arcs() + seq![u.local_port as u32]
}

impl Row for UdpEntry {
    open spec fn row(&self) -> Seq<CellView> {
        let e = udp_entry();
        let i = udp_index(*self);
        seq![
            (e.push(1) + i, ValueView::IpAddress(self.local_addr)),
            (e.push(2) + i, ValueView::Integer(self.local_port as i64)),
        ]
    }

    fn push_row(&self, out: &mut Vec<(Oid, Value)>) {
        let e: [u32; 10] = [1, 3, 6, 1, 2, 1, 7, 5, 1, 1];
        assert(e@ =~= udp_entry());
        let ghost before = cells(out@);
        let mut index: Vec<u32> = Vec::new();
        self.local_addr.push_arcs(&mut index);
        index.push(self.local_port as u32);
        assert(index@ =~= udp_index(*self));
        push_cell(out, &e, 1, index.as_slice(), Value::IpAddress(self.local_addr));
        push_cell(out, &e, 2, index.as_slice(), Value::Integer(self.local_port as i64));
        assert(cells(out@) =~= before + self.row());
    }
}

/// The cells of the listener table, in order.
pub fn udp_entry_cells(entries: &[UdpEntry]) -> (r: Vec<(Oid, Value)>)
    ensures
        is_table_of(cells(r@), all_rows(entries@)),
{
    collect_cells(row_cells(entries))
}

/// The cells of the group.
pub open spec fn udp_group(snmp: Seq<char>, udp: Seq<char>) -> Seq<CellView> {
    udp_scalar_rows(udp_scalars_of(snmp)) + all_rows(udp_entries_of(below_heading(udp)))
}

/// The handlers of the group, for the texts with the counters and with the listeners.
pub fn udp_handlers(snmp: &str, udp: &str) -> (r: Vec<FnHandler>)
    ensures
        handler_states(r@) == seq![table_state(udp_root(), udp_group(snmp@, udp@))],
{
    let root = Oid::new(vec![1, 3, 6, 1, 2, 1, 7]);
    assert(root@ =~= udp_root());
    let scalars = parse_udp_scalars(snmp);
    let entries = parse_udp_entries(udp);
    let mut out = raw_scalar_cells(&scalars);
    append_cells(&mut out, row_cells(entries.as_slice()));
    let r = vec![FnHandler::table(root, out)];
    assert(handler_states(r@) =~= seq![table_state(udp_root(), udp_group(snmp@, udp@))]);
    r
}

} // verus!
