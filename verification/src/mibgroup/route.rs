//! The routing table.

use vstd::prelude::*;

use crate::cells::all_rows;
use crate::cells::cells;
use crate::cells::collect_cells;
use crate::cells::is_table_of;
use crate::cells::push_cell;
use crate::cells::row_cells;
use crate::cells::CellView;
use crate::cells::Row;
use crate::handler::MibHandler;
use crate::mibgroup::kernel_text::below_heading;
use crate::mibgroup::kernel_text::has_second_bit;
use crate::mibgroup::kernel_text::hex_ipv4;
use crate::mibgroup::kernel_text::parse_hex_ipv4;
use crate::mibgroup::kernel_text::rows_below;
use crate::mibgroup::kernel_text::second_bit;
use crate::oid::Oid;
use crate::scalar::table_state;
use crate::scalar::FnHandler;
use crate::text::chars_are;
use crate::text::chars_eq;
use crate::text::parse_i64;
use crate::text::signed_value;
use crate::text::slice_of;
use crate::text::split_words;
use crate::text::texts;
use crate::text::words;
use crate::value::Ipv4Addr;
use crate::value::Value;
use crate::value::ValueView;

verus! {

/// One route.
#[derive(Clone, Copy, Debug, PartialEq, Eq, Structural)]
pub struct RouteEntry {
    /// The destination.
    pub dest: Ipv4Addr,
    /// The number of the interface, from one.
    pub if_index: i64,
    /// The first metric, -1 if it is not known.
    pub metric1: i64,
    /// The second metric.
    pub metric2: i64,
    /// The third metric.
    pub metric3: i64,
    /// The fourth metric.
    pub metric4: i64,
    /// The next hop.
    pub next_hop: Ipv4Addr,
    /// direct(3) or indirect(4).
    pub route_type: i64,
    /// other(1) or local(2).
    pub route_proto: i64,
    /// The mask.
    pub mask: Ipv4Addr,
}

/// Where a device is among the devices so far; behind the last if it is new.
pub open spec fn device_at(devices: Seq<Seq<char>>, name: Seq<char>) -> nat
    decreases devices.len(),
{
    if devices.len() == 0 || devices[0] == name {
        0
    } else {
        1 + device_at(devices.drop_first(), name)
    }
}

/// The devices so far and one more, which counts once.
pub open spec fn with_device(devices: Seq<Seq<char>>, name: Seq<char>) -> Seq<Seq<char>> {
    if device_at(devices, name) < devices.len() {
        devices
    } else {
        devices.push(name)
    }
}

/// The metric of a word, -1 if it is no number.
pub open spec fn metric_of(w: Seq<char>) -> i64 {
    match signed_value(w, i64::MIN as int, i64::MAX as int) {
        Some(n) => n as i64,
        None => -1i64,
    }
}

/// The route of a line, of which the interface has the number `if_index`; none if the line is
/// malformed. The route is indirect if its gateway flag is set, and local on the loopback
/// interface.
pub open spec fn route_line(w: Seq<Seq<char>>, if_index: i64) -> Option<RouteEntry> {
    if w.len() < 8 {
        None
    } else {
        match (hex_ipv4(w[1]), hex_ipv4(w[2]), hex_ipv4(w[7])) {
            (Some(dest), Some(next_hop), Some(mask)) => Some(
                RouteEntry {
                    dest,
                    if_index,
                    metric1: metric_of(w[6]),
                    metric2: -1i64,
                    metric3: -1i64,
                    metric4: -1i64,
                    next_hop,
                    route_type: if has_second_bit(w[3]) {
                        4
                    } else {
                        3
                    },
                    route_proto: if w[0] == "lo"@ {
                        2
                    } else {
                        1
                    },
                    mask,
                },
            ),
            _ => None,
        }
    }
}

/// The devices of the routes of lines, in the order in which they first come.
pub open spec fn route_devices(ls: Seq<Seq<char>>) -> Seq<Seq<char>>
    decreases ls.len(),
{
    if ls.len() == 0 {
        seq![]
    } else {
        let before = route_devices(ls.drop_last());
        let w = words(ls.last());
        match route_line(w, 0) {
            Some(_) => with_device(before, w[0]),
            None => before,
        }
    }
}

/// The routes of lines. Interfaces are numbered in the order in which they first come.
pub open spec fn routes_of(ls: Seq<Seq<char>>) -> Seq<RouteEntry>
    decreases ls.len(),
{
    if ls.len() == 0 {
        seq![]
    } else {
        let before = routes_of(ls.drop_last());
        let w = words(ls.last());
        let index = (device_at(route_devices(ls.drop_last()), w[0]) + 1) as i64;
        match route_line(w, index) {
            Some(r) => before.push(r),
            None => before,
        }
    }
}

fn find_device(devices: &Vec<Vec<char>>, name: &[char]) -> (r: usize)
    ensures
        r == device_at(texts(devices@), name@),
        r <= devices@.len(),
{
    let ghost all = texts(devices@);
    let mut i: usize = 0;
    assert(all.skip(0) =~= all);
    while i < devices.len()
        invariant
            i <= devices@.len(),
            all == texts(devices@),
            device_at(all, name@) == i + device_at(all.skip(i as int), name@),
        decreases devices@.len() - i,
    {
        assert(all.skip(i as int)[0] == devices@[i as int]@);
        if chars_eq(devices[i].as_slice(), name) {
            return i;
        }
        assert(all.skip(i as int).drop_first() =~= all.skip(i + 1));
        i += 1;
    }
    i
}

fn parse_route_words(w: &Vec<Vec<char>>, if_index: i64) -> (r: Option<RouteEntry>)
    ensures
        r == route_line(texts(w@), if_index),
{
    let ghost ws = texts(w@);
    if w.len() < 8 {
        return None;
    }
    proof {
        assert(ws[0] == w@[0]@ && ws[1] == w@[1]@ && ws[2] == w@[2]@ && ws[3] == w@[3]@);
        assert(ws[6] == w@[6]@ && ws[7] == w@[7]@);
    }
    let dest = parse_hex_ipv4(w[1].as_slice());
    let gateway = parse_hex_ipv4(w[2].as_slice());
    let mask = parse_hex_ipv4(w[7].as_slice());
    let metric1: i64 = match parse_i64(w[6].as_slice()) {
        Some(n) => n,
        None => -1,
    };
    let route_type: i64 = if second_bit(w[3].as_slice()) {
        4
    } else {
        3
    };
    let route_proto: i64 = if chars_are(w[0].as_slice(), "lo") {
        2
    } else {
        1
    };
    match (dest, gateway, mask) {
        (Some(dest), Some(next_hop), Some(mask)) => Some(
            RouteEntry {
                dest,
                if_index,
                metric1,
                metric2: -1,
                metric3: -1,
                metric4: -1,
                next_hop,
                route_type,
                route_proto,
                mask,
            },
        ),
        _ => None,
    }
}

/// Read the routes of a text of the kernel, below its heading. Malformed lines are left out.
pub fn parse_route_entries(route: &str) -> (r: Vec<RouteEntry>)
    ensures
        r@ == routes_of(below_heading(route@)),
{
    let ls = rows_below(route);
    let ghost all = texts(ls@);
    let mut devices: Vec<Vec<char>> = Vec::new();
    let mut out: Vec<RouteEntry> = Vec::new();
    let mut i: usize = 0;
    proof {
        assert(all.take(0) =~= Seq::<Seq<char>>::empty());
        assert(texts(devices@) =~= Seq::<Seq<char>>::empty());
    }
    while i < ls.len()
        invariant
            i <= ls@.len(),
            all == texts(ls@),
            texts(devices@) == route_devices(all.take(i as int)),
            out@ == routes_of(all.take(i as int)),
        decreases ls@.len() - i,
    {
        let ghost before = devices@;
        let w = split_words(ls[i].as_slice());
        let ghost ws = texts(w@);
        proof {
            assert(all.take(i + 1).drop_last() =~= all.take(i as int));
            assert(all.take(i + 1).last() == ls@[i as int]@);
        }
        if w.len() >= 8 {
            assert(ws[0] == w@[0]@);
            let at: usize = find_device(&devices, w[0].as_slice());
            let index: i64 = #[verifier::truncate]
            ((at as i128 + 1) as i64);
            if let Some(r) = parse_route_words(&w, index) {
                assert(route_line(ws, 0) is Some);
                out.push(r);
                if at >= devices.len() {
                    let name = slice_of(w[0].as_slice(), 0, w[0].len());
                    assert(name@ =~= ws[0]);
                    devices.push(name);
                    assert(texts(devices@) =~= texts(before).push(ws[0]));
                }
            }
        }
        i += 1;
    }
    assert(all.take(i as int) =~= all);
    out
}

/// The root of the table.
pub open spec fn route_table_root() -> Seq<u32> {
    seq![1u32, 3, 6, 1, 2, 1, 4, 21, 1]
}

/// The row prefix of the table.
pub open spec fn route_entry() -> Seq<u32> {
    seq![1u32, 3, 6, 1, 2, 1, 4, 21, 1, 1]
}

impl Row for RouteEntry {
    open spec fn row(&self) -> Seq<CellView> {
        let e = route_entry();
        let i = self.dest.arcs();
        seq![
            (e.push(1) + i, ValueView::IpAddress(self.dest)),
            (e.push(2) + i, ValueView::Integer(self.if_index)),
            (e.push(3) + i, ValueView::Integer(self.metric1)),
            (e.push(4) + i, ValueView::Integer(self.metric2)),
            (e.push(5) + i, ValueView::Integer(self.metric3)),
            (e.push(6) + i, ValueView::Integer(self.metric4)),
            (e.push(7) + i, ValueView::IpAddress(self.next_hop)),
            (e.push(8) + i, ValueView::Integer(self.route_type)),
            (e.push(9) + i, ValueView::Integer(self.route_proto)),
            (e.push(11) + i, ValueView::IpAddress(self.mask)),
        ]
    }

    fn push_row(&self, out: &mut Vec<(Oid, Value)>) {
        let e: [u32; 10] = [1, 3, 6, 1, 2, 1, 4, 21, 1, 1];
        assert(e@ =~= route_entry());
        let ghost before = cells(out@);
        let mut index: Vec<u32> = Vec::new();
        self.dest.push_arcs(&mut index);
        assert(index@ =~= self.dest.arcs());
        let i = index.as_slice();
        push_cell(out, &e, 1, i, Value::IpAddress(self.dest));
        push_cell(out, &e, 2, i, Value::Integer(self.if_index));
        push_cell(out, &e, 3, i, Value::Integer(self.metric1));
        push_cell(out, &e, 4, i, Value::Integer(self.metric2));
        push_cell(out, &e, 5, i, Value::Integer(self.metric3));
        push_cell(out, &e, 6, i, Value::Integer(self.metric4));
        push_cell(out, &e, 7, i, Value::IpAddress(self.next_hop));
        push_cell(out, &e, 8, i, Value::Integer(self.route_type));
        push_cell(out, &e, 9, i, Value::Integer(self.route_proto));
        push_cell(out, &e, 11, i, Value::IpAddress(self.mask));
        assert(cells(out@) =~= before + self.row());
    }
}

/// The cells of the table, in order.
pub fn route_cells(entries: &[RouteEntry]) -> (r: Vec<(Oid, Value)>)
    ensures
        is_table_of(cells(r@), all_rows(entries@)),
{
    collect_cells(row_cells(entries))
}

/// The handler of the table, for the text with the routes.
pub fn route_handler(route: &str) -> (r: FnHandler)
    ensures
        r.state() == table_state(
            route_table_root(),
            all_rows(routes_of(below_heading(route@))),
        ),
{
    let root = Oid::new(vec![1, 3, 6, 1, 2, 1, 4, 21, 1]);
    assert(root@ =~= route_table_root());
    let entries = parse_route_entries(route);
    FnHandler::table(root, row_cells(entries.as_slice()))
}

} // verus!
