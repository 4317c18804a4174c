//! The TCP group: its counters and the connection table.

use vstd::prelude::*;

use crate::cells::all_rows;
use crate::cells::append_cells;
use crate::cells::cell;
use crate::cells::cells;
use crate::cells::collect_cells;
use crate::cells::is_table_of;
use crate::cells::push_cell;
use crate::cells::push_row_cell;
use crate::cells::row_cells;
use crate::cells::CellView;
use crate::cells::Row;
use crate::mibgroup::kernel_text::below_heading;
use crate::mibgroup::kernel_text::columns_of;
use crate::mibgroup::kernel_text::counter_of;
use crate::mibgroup::kernel_text::endpoint_of;
use crate::mibgroup::kernel_text::find_columns;
use crate::mibgroup::kernel_text::parse_endpoint;
use crate::mibgroup::kernel_text::rows_below;
use crate::oid::Oid;
use crate::registry::handler_states;
use crate::scalar::table_state;
use crate::scalar::FnHandler;
use crate::text::chars_are;
use crate::text::chars_of;
use crate::text::split_words;
use crate::text::texts;
use crate::text::trim;
use crate::text::trimmed;
use crate::text::words;
use crate::value::Ipv4Addr;
use crate::value::Value;
use crate::value::ValueView;

verus! {

/// The counters of the protocol.
#[derive(Clone, Copy, Debug, Default, PartialEq, Eq, Structural)]
pub struct TcpScalars {
    /// `tcpActiveOpens`.
    pub active_opens: u32,
    /// `tcpPassiveOpens`.
    pub passive_opens: u32,
    /// `tcpAttemptFails`.
    pub attempt_fails: u32,
    /// `tcpEstabResets`.
    pub estab_resets: u32,
    /// `tcpCurrEstab`.
    pub curr_estab: u32,
    /// `tcpInSegs`.
    pub in_segs: u32,
    /// `tcpOutSegs`.
    pub out_segs: u32,
    /// `tcpRetransSegs`.
    pub retrans_segs: u32,
    /// `tcpInErrs`.
    pub in_errs: u32,
    /// `tcpOutRsts`.
    pub out_rsts: u32,
}

/// Counters that are all zero.
pub open spec fn no_tcp() -> TcpScalars {
    TcpScalars {
        active_opens: 0,
        passive_opens: 0,
        attempt_fails: 0,
        estab_resets: 0,
        curr_estab: 0,
        in_segs: 0,
        out_segs: 0,
        retrans_segs: 0,
        in_errs: 0,
        out_rsts: 0,
    }
}

/// The counters that a text of the kernel holds behind `Tcp:`; zero where it holds none.
pub open spec fn tcp_scalars_of(text: Seq<char>) -> TcpScalars {
    match columns_of(text, "Tcp:"@) {
        Some(c) => TcpScalars {
            active_opens: counter_of(c, "ActiveOpens"@, true),
            passive_opens: counter_of(c, "PassiveOpens"@, true),
            attempt_fails: counter_of(c, "AttemptFails"@, true),
            estab_resets: counter_of(c, "EstabResets"@, true),
            curr_estab: counter_of(c, "CurrEstab"@, true),
            in_segs: counter_of(c, "InSegs"@, true),
            out_segs: counter_of(c, "OutSegs"@, true),
            retrans_segs: counter_of(c, "RetransSegs"@, true),
            in_errs: counter_of(c, "InErrs"@, true),
            out_rsts: counter_of(c, "OutRsts"@, true),
        },
        None => no_tcp(),
    }
}

/// Read the counters that a text of the kernel holds behind `Tcp:`. The case of letters in the
/// names does not matter.
pub fn parse_tcp_scalars(snmp: &str) -> (r: TcpScalars)
    ensures
        r == tcp_scalars_of(snmp@),
{
    match find_columns(snmp, "Tcp:") {
        Some(c) => TcpScalars {
            active_opens: c.counter("ActiveOpens", true),
            passive_opens: c.counter("PassiveOpens", true),
            attempt_fails: c.counter("AttemptFails", true),
            estab_resets: c.counter("EstabResets", true),
            curr_estab: c.counter("CurrEstab", true),
            in_segs: c.counter("InSegs", true),
            out_segs: c.counter("OutSegs", true),
            retrans_segs: c.counter("RetransSegs", true),
            in_errs: c.counter("InErrs", true),
            out_rsts: c.counter("OutRsts", true),
        },
        None => TcpScalars {
            active_opens: 0,
            passive_opens: 0,
            attempt_fails: 0,
            estab_resets: 0,
            curr_estab: 0,
            in_segs: 0,
            out_segs: 0,
            retrans_segs: 0,
            in_errs: 0,
            out_rsts: 0,
        },
    }
}

/// The root of the group.
pub open spec fn tcp_root() -> Seq<u32> {
    seq![1u32, 3, 6, 1, 2, 1, 6]
}

/// The cells of the counters.
pub open spec fn tcp_scalar_rows(s: TcpScalars) -> Seq<CellView> {
    let e = tcp_root();
    seq![
        cell(e, 1, 0, ValueView::Integer(1)),
        cell(e, 2, 0, ValueView::Integer(200)),
        cell(e, 3, 0, ValueView::Integer(120_000)),
        cell(e, 4, 0, ValueView::Integer(-1i64)),
        cell(e, 5, 0, ValueView::Counter32(s.active_opens)),
        cell(e, 6, 0, ValueView::Counter32(s.passive_opens)),
        cell(e, 7, 0, ValueView::Counter32(s.attempt_fails)),
        cell(e, 8, 0, ValueView::Counter32(s.estab_resets)),
        cell(e, 9, 0, ValueView::Gauge32(s.curr_estab)),
        cell(e, 10, 0, ValueView::Counter32(s.in_segs)),
        cell(e, 11, 0, ValueView::Counter32(s.out_segs)),
        cell(e, 12, 0, ValueView::Counter32(s.retrans_segs)),
        cell(e, 13, 0, ValueView::Counter32(s.in_errs)),
        cell(e, 14, 0, ValueView::Counter32(s.out_rsts)),
    ]
}

fn raw_scalar_cells(s: &TcpScalars) -> (r: Vec<(Oid, Value)>)
    ensures
        cells(r@) == tcp_scalar_rows(*s),
{
    let e: [u32; 7] = [1, 3, 6, 1, 2, 1, 6];
    assert(e@ =~= tcp_root());
    let mut out: Vec<(Oid, Value)> = Vec::new();
    push_row_cell(&mut out, &e, 1, 0, Value::Integer(1));
    push_row_cell(&mut out, &e, 2, 0, Value::Integer(200));
    push_row_cell(&mut out, &e, 3, 0, Value::Integer(120_000));
    push_row_cell(&mut out, &e, 4, 0, Value::Integer(-1));
    push_row_cell(&mut out, &e, 5, 0, Value::Counter32(s.active_opens));
    push_row_cell(&mut out, &e, 6, 0, Value::Counter32(s.passive_opens));
    push_row_cell(&mut out, &e, 7, 0, Value::Counter32(s.attempt_fails));
    push_row_cell(&mut out, &e, 8, 0, Value::Counter32(s.estab_resets));
    push_row_cell(&mut out, &e, 9, 0, Value::Gauge32(s.curr_estab));
    push_row_cell(&mut out, &e, 10, 0, Value::Counter32(s.in_segs));
    push_row_cell(&mut out, &e, 11, 0, Value::Counter32(s.out_segs));
    push_row_cell(&mut out, &e, 12, 0, Value::Counter32(s.retrans_segs));
    push_row_cell(&mut out, &e, 13, 0, Value::Counter32(s.in_errs));
    push_row_cell(&mut out, &e, 14, 0, Value::Counter32(s.out_rsts));
    assert(cells(out@) =~= tcp_scalar_rows(*s));
    out
}

/// The cells of the counters, in order.
pub fn tcp_scalar_cells(scalars: &TcpScalars) -> (r: Vec<(Oid, Value)>)
    ensures
        is_table_of(cells(r@), tcp_scalar_rows(*scalars)),
{
    collect_cells(raw_scalar_cells(scalars))
}

/// One connection.
#[derive(Clone, Copy, Debug, PartialEq, Eq, Structural)]
pub struct TcpConn {
    /// `tcpConnState`.
    pub state: i64,
    /// The local address.
    pub local_addr: Ipv4Addr,
    /// The local port.
    pub local_port: u16,
    /// The remote address.
    pub rem_addr: Ipv4Addr,
    /// The remote port.
    pub rem_port: u16,
}

/// The `tcpConnState` that a hexadecimal state of the kernel stands for: established(5),
/// synSent(3), synReceived(4), finWait1(6), finWait2(7), timeWait(11), closeWait(8), lastAck(9),
/// listen(2) and closing(10), and closed(1) for any other.
pub open spec fn tcp_state_of(hex: Seq<char>) -> i64 {
    let t = trim(hex);
    if t == "01"@ {
        5
    } else if t == "02"@ {
        3
    } else if t == "03"@ {
        4
    } else if t == "04"@ {
        6
    } else if t == "05"@ {
        7
    } else if t == "06"@ {
        11
    } else if t == "08"@ {
        8
    } else if t == "09"@ {
        9
    } else if t == "0A"@ {
        2
    } else if t == "0B"@ {
        10
    } else {
        1
    }
}

fn tcp_state(hex: &[char]) -> (r: i64)
    ensures
        r == tcp_state_of(hex@),
{
    let v = trimmed(hex);
    let t = v.as_slice();
    if chars_are(t, "01") {
        5
    } else if chars_are(t, "02") {
        3
    } else if chars_are(t, "03") {
        4
    } else if chars_are(t, "04") {
        6
    } else if chars_are(t, "05") {
        7
    } else if chars_are(t, "06") {
        11
    } else if chars_are(t, "08") {
        8
    } else if chars_are(t, "09") {
        9
    } else if chars_are(t, "0A") {
        2
    } else if chars_are(t, "0B") {
        10
    } else {
        1
    }
}

/// The `tcpConnState` that a hexadecimal state of the kernel stands for.
pub fn map_tcp_state(hex: &str) -> (r: i64)
    ensures
        r == tcp_state_of(hex@),
{
    let v = chars_of(hex);
    tcp_state(v.as_slice())
}

/// The connection of a line; none if the line is malformed.
pub open spec fn tcp_line(line: Seq<char>) -> Option<TcpConn> {
    let w = words(line);
    if w.len() < 4 {
        None
    } else {
        match (endpoint_of(w[1]), endpoint_of(w[2])) {
            (Some((local_addr, local_port)), Some((rem_addr, rem_port))) => Some(
                TcpConn { state: tcp_state_of(w[3]), local_addr, local_port, rem_addr, rem_port },
            ),
            _ => None,
        }
    }
}

fn parse_tcp_line(line: &[char]) -> (r: Option<TcpConn>)
    ensures
        r == tcp_line(line@),
{
    let w = split_words(line);
    let ghost ws = texts(w@);
    if w.len() < 4 {
        return None;
    }
    assert(ws[1] == w@[1]@ && ws[2] == w@[2]@ && ws[3] == w@[3]@);
    match (parse_endpoint(w[1].as_slice()), parse_endpoint(w[2].as_slice())) {
        (Some((local_addr, local_port)), Some((rem_addr, rem_port))) => {
            let state: i64 = tcp_state(w[3].as_slice());
            Some(TcpConn { state, local_addr, local_port, rem_addr, rem_port })
        },
        _ => None,
    }
}

/// The connections of lines.
pub open spec fn tcp_conns_of(ls: Seq<Seq<char>>) -> Seq<TcpConn>
    decreases ls.len(),
{
    if ls.len() == 0 {
        seq![]
    } else {
        match tcp_line(ls.last()) {
            Some(x) => tcp_conns_of(ls.drop_last()).push(x),
            None => tcp_conns_of(ls.drop_last()),
        }
    }
}

/// Read the connections of a text of the kernel, below its heading. Malformed lines are left out.
pub fn parse_tcp_conns(tcp: &str) -> (r: Vec<TcpConn>)
    ensures
        r@ == tcp_conns_of(below_heading(tcp@)),
{
    let ls = rows_below(tcp);
    let ghost all = texts(ls@);
    let mut out: Vec<TcpConn> = Vec::new();
    let mut i: usize = 0;
    assert(all.take(0) =~= Seq::<Seq<char>>::empty());
    while i < ls.len()
        invariant
            i <= ls@.len(),
            all == texts(ls@),
            out@ == tcp_conns_of(all.take(i as int)),
        decreases ls@.len() - i,
    {
        proof {
            assert(all.take(i + 1).drop_last() =~= all.take(i as int));
            assert(all.take(i + 1).last() == ls@[i as int]@);
        }
        if let Some(x) = parse_tcp_line(ls[i].as_slice()) {
            out.push(x);
        }
        i += 1;
    }
    assert(all.take(i as int) =~= all);
    out
}

/// The row prefix of the connection table.
pub open spec fn tcp_conn_entry() -> Seq<u32> {
    seq![1u32, 3, 6, 1, 2, 1, 6, 13, 1, 1]
}

/// The index of a connection: local address and port, remote address and port.
pub open spec fn tcp_conn_index(c: TcpConn) -> Seq<u32> {
    c.local_addr.arcs() + seq![c.local_port as u32] + c.rem_addr.arcs() + seq![c.rem_port as u32]
}

impl Row for TcpConn {
    open spec fn row(&self) -> Seq<CellView> {
        let e = tcp_conn_entry();
        let i = tcp_conn_index(*self);
        seq![
            (e.push(1) + i, ValueView::Integer(self.state)),
            (e.push(2) + i, ValueView::IpAddress(self.local_addr)),
            (e.push(3) + i, ValueView::Integer(self.local_port as i64)),
            (e.push(4) + i, ValueView::IpAddress(self.rem_addr)),
            (e.push(5) + i, ValueView::Integer(self.rem_port as i64)),
        ]
    }

    fn push_row(&self, out: &mut Vec<(Oid, Value)>) {
        let e: [u32; 10] = [1, 3, 6, 1, 2, 1, 6, 13, 1, 1];
        assert(e@ =~= tcp_conn_entry());
        let ghost before = cells(out@);
        let mut index: Vec<u32> = Vec::new();
        self.local_addr.push_arcs(&mut index);
        index.push(self.local_port as u32);
        self.rem_addr.push_arcs(&mut index);
        index.push(self.rem_port as u32);
        assert(index@ =~= tcp_conn_index(*self));
        let i = index.as_slice();
        push_cell(out, &e, 1, i, Value::Integer(self.state));
        push_cell(out, &e, 2, i, Value::IpAddress(self.local_addr));
        push_cell(out, &e, 3, i, Value::Integer(self.local_port as i64));
        push_cell(out, &e, 4, i, Value::IpAddress(self.rem_addr));
        push_cell(out, &e, 5, i, Value::Integer(self.rem_port as i64));
        assert(cells(out@) =~= before + self.row());
    }
}

/// The cells of the connection table, in order.
pub fn tcp_conn_cells(conns: &[TcpConn]) -> (r: Vec<(Oid, Value)>)
    ensures
        is_table_of(cells(r@), all_rows(conns@)),
{
    collect_cells(row_cells(conns))
}

/// The cells of the group.
pub open spec fn tcp_group(snmp: Seq<char>, tcp: Seq<char>) -> Seq<CellView> {
    tcp_scalar_rows(tcp_scalars_of(snmp)) + all_rows(tcp_conns_of(below_heading(tcp)))
}

/// The handlers of the group, for the texts with the counters and with the connections.
pub fn tcp_handlers(snmp: &str, tcp: &str) -> (r: Vec<FnHandler>)
    ensures
        handler_states(r@) == seq![table_state(tcp_root(), tcp_group(snmp@, tcp@))],
{
    let root = Oid::new(vec![1, 3, 6, 1, 2, 1, 6]);
    assert(root@ =~= tcp_root());
    let scalars = parse_tcp_scalars(snmp);
    let conns = parse_tcp_conns(tcp);
    let mut out = raw_scalar_cells(&scalars);
    append_cells(&mut out, row_cells(conns.as_slice()));
    let r = vec![FnHandler::table(root, out)];
    assert(handler_states(r@) =~= seq![table_state(tcp_root(), tcp_group(snmp@, tcp@))]);
    r
}

} // verus!
