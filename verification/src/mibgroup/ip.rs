//! The IP group: its counters and the address translation table.

use vstd::prelude::*;

use crate::cells::append_cells;
use crate::cells::cell;
use crate::cells::cells;
use crate::cells::collect_cells;
use crate::cells::is_table_of;
use crate::cells::push_cell;
use crate::cells::push_row_cell;
use crate::cells::CellView;
use crate::inet::ipv4_of;
use crate::inet::parse_ipv4;
use crate::mibgroup::collector::mac_bytes;
use crate::mibgroup::collector::mac_of;
use crate::mibgroup::kernel_text::below_heading;
use crate::mibgroup::kernel_text::columns_of;
use crate::mibgroup::kernel_text::counter_of;
use crate::mibgroup::kernel_text::find_columns;
use crate::mibgroup::kernel_text::has_second_bit;
use crate::mibgroup::kernel_text::number_of;
use crate::mibgroup::kernel_text::rows_below;
use crate::mibgroup::kernel_text::second_bit;
use crate::mibgroup::netsnmp_agent::name_lt;
use crate::oid::Oid;
use crate::registry::handler_states;
use crate::scalar::table_state;
use crate::scalar::FnHandler;
use crate::sorting::text_before;
use crate::text::split_words;
use crate::text::str_eq;
use crate::text::string_of;
use crate::text::strings;
use crate::text::texts;
use crate::text::words;
use crate::value::copy_bytes;
use crate::value::Ipv4Addr;
use crate::value::Value;
use crate::value::ValueView;

verus! {

/// The counters of the protocol.
#[derive(Clone, Copy, Debug, Default, PartialEq, Eq, Structural)]
pub struct IpScalars {
    /// `ipForwarding`.
    pub forwarding: i64,
    /// `ipDefaultTTL`.
    pub default_ttl: i64,
    /// `ipInReceives`.
    pub in_receives: u32,
    /// `ipInHdrErrors`.
    pub in_hdr_errors: u32,
    /// `ipInAddrErrors`.
    pub in_addr_errors: u32,
    /// `ipForwDatagrams`.
    pub forw_datagrams: u32,
    /// `ipInUnknownProtos`.
    pub in_unknown_protos: u32,
    /// `ipInDiscards`.
    pub in_discards: u32,
    /// `ipInDelivers`.
    pub in_delivers: u32,
    /// `ipOutRequests`.
    pub out_requests: u32,
    /// `ipOutDiscards`.
    pub out_discards: u32,
    /// `ipOutNoRoutes`.
    pub out_no_routes: u32,
    /// `ipReasmTimeout`.
    pub reasm_timeout: i64,
    /// `ipReasmReqds`.
    pub reasm_reqds: u32,
    /// `ipReasmOKs`.
    pub reasm_oks: u32,
    /// `ipReasmFails`.
    pub reasm_fails: u32,
    /// `ipFragOKs`.
    pub frag_oks: u32,
    /// `ipFragFails`.
    pub frag_fails: u32,
    /// `ipFragCreates`.
    pub frag_creates: u32,
}

/// Counters that are all zero.
pub open spec fn no_ip() -> IpScalars {
    IpScalars {
        forwarding: 0,
        default_ttl: 0,
        in_receives: 0,
        in_hdr_errors: 0,
        in_addr_errors: 0,
        forw_datagrams: 0,
        in_unknown_protos: 0,
        in_discards: 0,
        in_delivers: 0,
        out_requests: 0,
        out_discards: 0,
        out_no_routes: 0,
        reasm_timeout: 0,
        reasm_reqds: 0,
        reasm_oks: 0,
        reasm_fails: 0,
        frag_oks: 0,
        frag_fails: 0,
        frag_creates: 0,
    }
}

/// The counters that a text of the kernel holds behind `Ip:`; zero where it holds none.
pub open spec fn ip_scalars_of(text: Seq<char>) -> IpScalars {
    match columns_of(text, "Ip:"@) {
        Some(c) => IpScalars {
            forwarding: number_of(c, "Forwarding"@),
            default_ttl: number_of(c, "DefaultTTL"@),
            in_receives: counter_of(c, "InReceives"@, false),
            in_hdr_errors: counter_of(c, "InHdrErrors"@, false),
            in_addr_errors: counter_of(c, "InAddrErrors"@, false),
            forw_datagrams: counter_of(c, "ForwDatagrams"@, false),
            in_unknown_protos: counter_of(c, "InUnknownProtos"@, false),
            in_discards: counter_of(c, "InDiscards"@, false),
            in_delivers: counter_of(c, "InDelivers"@, false),
            out_requests: counter_of(c, "OutRequests"@, false),
            out_discards: counter_of(c, "OutDiscards"@, false),
            out_no_routes: counter_of(c, "OutNoRoutes"@, false),
            reasm_timeout: number_of(c, "ReasmTimeout"@),
            reasm_reqds: counter_of(c, "ReasmReqds"@, false),
            reasm_oks: counter_of(c, "ReasmOKs"@, false),
            reasm_fails: counter_of(c, "ReasmFails"@, false),
            frag_oks: counter_of(c, "FragOKs"@, false),
            frag_fails: counter_of(c, "FragFails"@, false),
            frag_creates: counter_of(c, "FragCreates"@, false),
        },
        None => no_ip(),
    }
}

/// Read the counters that a text of the kernel holds behind `Ip:`.
pub fn parse_ip_scalars(snmp: &str) -> (r: IpScalars)
    ensures
        r == ip_scalars_of(snmp@),
{
    match find_columns(snmp, "Ip:") {
        Some(c) => IpScalars {
            forwarding: c.number("Forwarding"),
            default_ttl: c.number("DefaultTTL"),
            in_receives: c.counter("InReceives", false),
            in_hdr_errors: c.counter("InHdrErrors", false),
            in_addr_errors: c.counter("InAddrErrors", false),
            forw_datagrams: c.counter("ForwDatagrams", false),
            in_unknown_protos: c.counter("InUnknownProtos", false),
            in_discards: c.counter("InDiscards", false),
            in_delivers: c.counter("InDelivers", false),
            out_requests: c.counter("OutRequests", false),
            out_discards: c.counter("OutDiscards", false),
            out_no_routes: c.counter("OutNoRoutes", false),
            reasm_timeout: c.number("ReasmTimeout"),
            reasm_reqds: c.counter("ReasmReqds", false),
            reasm_oks: c.counter("ReasmOKs", false),
            reasm_fails: c.counter("ReasmFails", false),
            frag_oks: c.counter("FragOKs", false),
            frag_fails: c.counter("FragFails", false),
            frag_creates: c.counter("FragCreates", false),
        },
        None => IpScalars {
            forwarding: 0,
            default_ttl: 0,
            in_receives: 0,
            in_hdr_errors: 0,
            in_addr_errors: 0,
            forw_datagrams: 0,
            in_unknown_protos: 0,
            in_discards: 0,
            in_delivers: 0,
            out_requests: 0,
            out_discards: 0,
            out_no_routes: 0,
            reasm_timeout: 0,
            reasm_reqds: 0,
            reasm_oks: 0,
            reasm_fails: 0,
            frag_oks: 0,
            frag_fails: 0,
            frag_creates: 0,
        },
    }
}

/// The root of the group.
pub open spec fn ip_root() -> Seq<u32> {
    seq![1u32, 3, 6, 1, 2, 1, 4]
}

/// The cells of the counters.
pub open spec fn ip_scalar_rows(s: IpScalars) -> Seq<CellView> {
    let e = ip_root();
    seq![
        cell(e, 1, 0, ValueView::Integer(s.forwarding)),
        cell(e, 2, 0, ValueView::Integer(s.default_ttl)),
        cell(e, 3, 0, ValueView::Counter32(s.in_receives)),
        cell(e, 4, 0, ValueView::Counter32(s.in_hdr_errors)),
        cell(e, 5, 0, ValueView::Counter32(s.in_addr_errors)),
        cell(e, 6, 0, ValueView::Counter32(s.forw_datagrams)),
        cell(e, 7, 0, ValueView::Counter32(s.in_unknown_protos)),
        cell(e, 8, 0, ValueView::Counter32(s.in_discards)),
        cell(e, 9, 0, ValueView::Counter32(s.in_delivers)),
        cell(e, 10, 0, ValueView::Counter32(s.out_requests)),
        cell(e, 11, 0, ValueView::Counter32(s.out_discards)),
        cell(e, 12, 0, ValueView::Counter32(s.out_no_routes)),
        cell(e, 13, 0, ValueView::Integer(s.reasm_timeout)),
        cell(e, 14, 0, ValueView::Counter32(s.reasm_reqds)),
        cell(e, 15, 0, ValueView::Counter32(s.reasm_oks)),
        cell(e, 16, 0, ValueView::Counter32(s.reasm_fails)),
        cell(e, 17, 0, ValueView::Counter32(s.frag_oks)),
        cell(e, 18, 0, ValueView::Counter32(s.frag_fails)),
        cell(e, 19, 0, ValueView::Counter32(s.frag_creates)),
    ]
}

fn raw_scalar_cells(s: &IpScalars) -> (r: Vec<(Oid, Value)>)
    ensures
        cells(r@) == ip_scalar_rows(*s),
{
    let e: [u32; 7] = [1, 3, 6, 1, 2, 1, 4];
    assert(e@ =~= ip_root());
    let mut out: Vec<(Oid, Value)> = Vec::new();
    push_row_cell(&mut out, &e, 1, 0, Value::Integer(s.forwarding));
    push_row_cell(&mut out, &e, 2, 0, Value::Integer(s.default_ttl));
    push_row_cell(&mut out, &e, 3, 0, Value::Counter32(s.in_receives));
    push_row_cell(&mut out, &e, 4, 0, Value::Counter32(s.in_hdr_errors));
    push_row_cell(&mut out, &e, 5, 0, Value::Counter32(s.in_addr_errors));
    push_row_cell(&mut out, &e, 6, 0, Value::Counter32(s.forw_datagrams));
    push_row_cell(&mut out, &e, 7, 0, Value::Counter32(s.in_unknown_protos));
    push_row_cell(&mut out, &e, 8, 0, Value::Counter32(s.in_discards));
    push_row_cell(&mut out, &e, 9, 0, Value::Counter32(s.in_delivers));
    push_row_cell(&mut out, &e, 10, 0, Value::Counter32(s.out_requests));
    push_row_cell(&mut out, &e, 11, 0, Value::Counter32(s.out_discards));
    push_row_cell(&mut out, &e, 12, 0, Value::Counter32(s.out_no_routes));
    push_row_cell(&mut out, &e, 13, 0, Value::Integer(s.reasm_timeout));
    push_row_cell(&mut out, &e, 14, 0, Value::Counter32(s.reasm_reqds));
    push_row_cell(&mut out, &e, 15, 0, Value::Counter32(s.reasm_oks));
    push_row_cell(&mut out, &e, 16, 0, Value::Counter32(s.reasm_fails));
    push_row_cell(&mut out, &e, 17, 0, Value::Counter32(s.frag_oks));
    push_row_cell(&mut out, &e, 18, 0, Value::Counter32(s.frag_fails));
    push_row_cell(&mut out, &e, 19, 0, Value::Counter32(s.frag_creates));
    assert(cells(out@) =~= ip_scalar_rows(*s));
    out
}

/// The cells of the counters, in order.
pub fn ip_scalar_cells(scalars: &IpScalars) -> (r: Vec<(Oid, Value)>)
    ensures
        is_table_of(cells(r@), ip_scalar_rows(*scalars)),
{
    collect_cells(raw_scalar_cells(scalars))
}

/// Parse a hardware address with colons between its octets; empty if it is none.
pub fn parse_mac(s: &str) -> (r: Vec<u8>)
    ensures
        r@ == mac_of(s@),
{
    mac_bytes(s)
}

/// One row of the address translation table.
#[derive(Debug, PartialEq, Eq)]
pub struct ArpEntry {
    /// The number of the interface, from one.
    pub if_index: u32,
    /// The hardware address.
    pub phys_address: Vec<u8>,
    /// The address.
    pub net_address: Ipv4Addr,
    /// dynamic(3) or static(4).
    pub media_type: i64,
}

/// The mathematical content of an [`ArpEntry`].
#[verifier::ext_equal]
pub struct ArpView {
    pub if_index: u32,
    pub phys_address: Seq<u8>,
    pub net_address: Ipv4Addr,
    pub media_type: i64,
}

impl View for ArpEntry {
    type V = ArpView;

    open spec fn view(&self) -> ArpView {
        ArpView {
            if_index: self.if_index,
            phys_address: self.phys_address@,
            net_address: self.net_address,
            media_type: self.media_type,
        }
    }
}

/// The rows of a list.
pub open spec fn arp_views(v: Seq<ArpEntry>) -> Seq<ArpView> {
    v.map_values(|e: ArpEntry| e@)
}

/// What a line says, with the name of its device.
#[verifier::ext_equal]
pub struct ArpLine {
    pub phys_address: Seq<u8>,
    pub net_address: Ipv4Addr,
    pub media_type: i64,
    pub device: Seq<char>,
}

/// Whether all octets are zero.
pub open spec fn all_zero(b: Seq<u8>) -> bool {
    forall|i: int| 0 <= i < b.len() ==> #[trigger] b[i] == 0
}

/// What a line says; nothing if it is malformed, or its hardware address is incomplete.
pub open spec fn arp_line(line: Seq<char>) -> Option<ArpLine> {
    let w = words(line);
    if w.len() < 6 {
        None
    } else {
        match ipv4_of(w[0]) {
            Some(net_address) => {
                let phys_address = mac_of(w[3]);
                if phys_address.len() != 6 || all_zero(phys_address) {
                    None
                } else {
                    Some(
                        ArpLine {
                            phys_address,
                            net_address,
                            media_type: if has_second_bit(w[2]) {
                                4
                            } else {
                                3
                            },
                            device: w[5],
                        },
                    )
                }
            },
            None => None,
        }
    }
}

/// What lines say.
pub open spec fn arp_lines(ls: Seq<Seq<char>>) -> Seq<ArpLine>
    decreases ls.len(),
{
    if ls.len() == 0 {
        seq![]
    } else {
        match arp_line(ls.last()) {
            Some(x) => arp_lines(ls.drop_last()).push(x),
            None => arp_lines(ls.drop_last()),
        }
    }
}

/// Names, each of them once.
pub open spec fn distinct(names: Seq<Seq<char>>) -> Seq<Seq<char>>
    decreases names.len(),
{
    if names.len() == 0 {
        seq![]
    } else {
        let before = distinct(names.drop_last());
        if before.contains(names.last()) {
            before
        } else {
            before.push(names.last())
        }
    }
}

/// How many names come before another.
pub open spec fn names_before(names: Seq<Seq<char>>, name: Seq<char>) -> nat
    decreases names.len(),
{
    if names.len() == 0 {
        0
    } else {
        names_before(names.drop_last(), name) + if name_lt(names.last(), name) {
            1nat
        } else {
            0nat
        }
    }
}

/// The devices that lines name.
pub open spec fn devices_of(rows: Seq<ArpLine>) -> Seq<Seq<char>> {
    rows.map_values(|r: ArpLine| r.device)
}

/// The row of a line, whose interface is numbered by the place of its device among all devices in
/// order.
pub open spec fn arp_row(r: ArpLine, devices: Seq<Seq<char>>) -> ArpView {
    ArpView {
        if_index: (names_before(devices, r.device) + 1) as u32,
        phys_address: r.phys_address,
        net_address: r.net_address,
        media_type: r.media_type,
    }
}

/// The rows that a text of the kernel holds.
pub open spec fn arp_entries_of(text: Seq<char>) -> Seq<ArpView> {
    let rows = arp_lines(below_heading(text));
    rows.map_values(|r: ArpLine| arp_row(r, distinct(devices_of(rows))))
}

struct ArpRow {
    phys_address: Vec<u8>,
    net_address: Ipv4Addr,
    media_type: i64,
    device: String,
}

impl View for ArpRow {
    type V = ArpLine;

    closed spec fn view(&self) -> ArpLine {
        ArpLine {
            phys_address: self.phys_address@,
            net_address: self.net_address,
            media_type: self.media_type,
            device: self.device@,
        }
    }
}

spec fn arp_row_views(v: Seq<ArpRow>) -> Seq<ArpLine> {
    v.map_values(|r: ArpRow| r@)
}

fn is_all_zero(b: &[u8]) -> (r: bool)
    ensures
        r == all_zero(b@),
{
    let mut i: usize = 0;
    while i < b.len()
        invariant
            i <= b@.len(),
            forall|k: int| 0 <= k < i ==> #[trigger] b@[k] == 0,
        decreases b@.len() - i,
    {
        if b[i] != 0 {
            return false;
        }
        i += 1;
    }
    true
}

fn parse_arp_line(line: &[char]) -> (r: Option<ArpRow>)
    ensures
        (match r {
            Some(x) => Some(x@),
            None => None,
        }) == arp_line(line@),
{
    let w = split_words(line);
    let ghost ws = texts(w@);
    if w.len() < 6 {
        return None;
    }
    assert(ws[0] == w@[0]@ && ws[2] == w@[2]@ && ws[3] == w@[3]@ && ws[5] == w@[5]@);
    let net_address = match parse_ipv4(w[0].as_slice()) {
        Some(a) => a,
        None => {
            return None;
        },
    };
    let mac = string_of(w[3].as_slice());
    let phys_address = parse_mac(mac.as_str());
    if phys_address.len() != 6 || is_all_zero(phys_address.as_slice()) {
        return None;
    }
    let media_type: i64 = if second_bit(w[2].as_slice()) {
        4
    } else {
        3
    };
    let device = string_of(w[5].as_slice());
    Some(ArpRow { phys_address, net_address, media_type, device })
}

fn holds_name(names: &Vec<String>, name: &str) -> (r: bool)
    ensures
        r == strings(names@).contains(name@),
{
    let mut i: usize = 0;
    while i < names.len()
        invariant
            i <= names@.len(),
            forall|k: int| 0 <= k < i ==> (#[trigger] names@[k])@ != name@,
        decreases names@.len() - i,
    {
        if str_eq(names[i].as_str(), name) {
            assert(strings(names@)[i as int] == name@);
            return true;
        }
        i += 1;
    }
    proof {
        if strings(names@).contains(name@) {
            let k = choose|k: int| 0 <= k < names@.len() && strings(names@)[k] == name@;
            assert(names@[k]@ == name@);
        }
    }
    false
}

fn count_before(names: &Vec<String>, name: &str) -> (r: usize)
    ensures
        r == names_before(strings(names@), name@),
        r <= names@.len(),
{
    let ghost all = strings(names@);
    let mut n: usize = 0;
    let mut i: usize = 0;
    assert(all.take(0) =~= Seq::<Seq<char>>::empty());
    while i < names.len()
        invariant
            i <= names@.len(),
            n <= i,
            all == strings(names@),
            n == names_before(all.take(i as int), name@),
        decreases names@.len() - i,
    {
        proof {
            assert(all.take(i + 1).drop_last() =~= all.take(i as int));
            assert(all.take(i + 1).last() == names@[i as int]@);
        }
        if text_before(names[i].as_str(), name) {
            n += 1;
        }
        i += 1;
    }
    assert(all.take(i as int) =~= all);
    n
}

fn number_rows(rows: &Vec<ArpRow>, devices: &Vec<String>) -> (r: Vec<ArpEntry>)
    ensures
        arp_views(r@) == arp_row_views(rows@).map_values(
            |x: ArpLine| arp_row(x, strings(devices@)),
        ),
{
    let ghost all = arp_row_views(rows@);
    let ghost ds = strings(devices@);
    let ghost want = all.map_values(|x: ArpLine| arp_row(x, ds));
    let mut out: Vec<ArpEntry> = Vec::new();
    let mut i: usize = 0;
    while i < rows.len()
        invariant
            i <= rows@.len(),
            all == arp_row_views(rows@),
            ds == strings(devices@),
            want == all.map_values(|x: ArpLine| arp_row(x, ds)),
            arp_views(out@) =~= want.take(i as int),
        decreases rows@.len() - i,
    {
        let ghost before = out@;
        let row = &rows[i];
        let n: usize = count_before(devices, row.device.as_str());
        let if_index: u32 = #[verifier::truncate]
        ((n as u128 + 1) as u32);
        out.push(
            ArpEntry {
                if_index,
                phys_address: copy_bytes(row.phys_address.as_slice()),
                net_address: row.net_address,
                media_type: row.media_type,
            },
        );
        proof {
            assert(all[i as int] == row@);
            assert(want[i as int] == arp_row(row@, ds));
            assert(out@.last()@ =~= want[i as int]);
            assert(arp_views(out@) =~= arp_views(before).push(out@.last()@));
            assert(want.take(i + 1) =~= want.take(i as int).push(want[i as int]));
        }
        i += 1;
    }
    assert(want.take(i as int) =~= want);
    out
}

/// Read the rows of a text of the kernel, below its heading. Malformed lines and incomplete rows
/// are left out. A device is numbered by its place among the distinct devices in order.
pub fn parse_arp_entries(arp: &str) -> (r: Vec<ArpEntry>)
    ensures
        arp_views(r@) == arp_entries_of(arp@),
{
    let ls = rows_below(arp);
    let ghost all = texts(ls@);
    let mut rows: Vec<ArpRow> = Vec::new();
    let mut devices: Vec<String> = Vec::new();
    let mut i: usize = 0;
    proof {
        assert(all.take(0) =~= Seq::<Seq<char>>::empty());
        assert(arp_row_views(rows@) =~= Seq::<ArpLine>::empty());
        assert(devices_of(arp_row_views(rows@)) =~= Seq::<Seq<char>>::empty());
        assert(strings(devices@) =~= Seq::<Seq<char>>::empty());
    }
    while i < ls.len()
        invariant
            i <= ls@.len(),
            all == texts(ls@),
            arp_row_views(rows@) == arp_lines(all.take(i as int)),
            strings(devices@) == distinct(devices_of(arp_row_views(rows@))),
        decreases ls@.len() - i,
    {
        let ghost before = rows@;
        let ghost before_devices = devices@;
        proof {
            assert(all.take(i + 1).drop_last() =~= all.take(i as int));
            assert(all.take(i + 1).last() == ls@[i as int]@);
        }
        if let Some(row) = parse_arp_line(ls[i].as_slice()) {
            let known = holds_name(&devices, row.device.as_str());
            if !known {
                devices.push(row.device.clone());
                assert(strings(devices@) =~= strings(before_devices).push(row.device@));
            }
            rows.push(row);
            proof {
                assert(arp_row_views(rows@) =~= arp_row_views(before).push(row@));
                let d = devices_of(arp_row_views(rows@));
                assert(d =~= devices_of(arp_row_views(before)).push(row.device@));
                assert(d.drop_last() =~= devices_of(arp_row_views(before)));
            }
        }
        i += 1;
    }
    assert(all.take(i as int) =~= all);
    number_rows(&rows, &devices)
}

/// The row prefix of the address translation table.
pub open spec fn net_to_media_entry() -> Seq<u32> {
    seq![1u32, 3, 6, 1, 2, 1, 4, 22, 1, 1]
}

/// The index of a row: the interface and the address.
pub open spec fn arp_index(e: ArpView) -> Seq<u32> {
    seq![e.if_index] + e.net_address.arcs()
}

/// The index of a row.
pub fn arp_index_of(e: &ArpEntry) -> (r: Vec<u32>)
    ensures
        r@ == arp_index(e@),
{
    let mut index: Vec<u32> = Vec::new();
    index.push(e.if_index);
    e.net_address.push_arcs(&mut index);
    assert(index@ =~= arp_index(e@));
    index
}

/// The cells of one row.
pub open spec fn net_to_media_row(x: ArpView) -> Seq<CellView> {
    let e = net_to_media_entry();
    let i = arp_index(x);
    seq![
        (e.push(1) + i, ValueView::Integer(x.if_index as i64)),
        (e.push(2) + i, ValueView::OctetString(x.phys_address)),
        (e.push(3) + i, ValueView::IpAddress(x.net_address)),
        (e.push(4) + i, ValueView::Integer(x.media_type)),
    ]
}

/// The cells of rows, one after the other.
pub open spec fn net_to_media_rows(es: Seq<ArpView>) -> Seq<CellView>
    decreases es.len(),
{
    if es.len() == 0 {
        seq![]
    } else {
        net_to_media_rows(es.drop_last()) + net_to_media_row(es.last())
    }
}

fn raw_net_to_media_cells(entries: &[ArpEntry]) -> (r: Vec<(Oid, Value)>)
    ensures
        cells(r@) == net_to_media_rows(arp_views(entries@)),
{
    let e: [u32; 10] = [1, 3, 6, 1, 2, 1, 4, 22, 1, 1];
    assert(e@ =~= net_to_media_entry());
    let ghost all = arp_views(entries@);
    let mut out: Vec<(Oid, Value)> = Vec::new();
    let mut i: usize = 0;
    proof {
        assert(all.take(0) =~= Seq::<ArpView>::empty());
        assert(cells(out@) =~= Seq::<CellView>::empty());
    }
    while i < entries.len()
        invariant
            i <= entries@.len(),
            e@ == net_to_media_entry(),
            all == arp_views(entries@),
            cells(out@) == net_to_media_rows(all.take(i as int)),
        decreases entries@.len() - i,
    {
        let ghost before = cells(out@);
        let x = &entries[i];
        proof {
            assert(all.take(i + 1).drop_last() =~= all.take(i as int));
            assert(all.take(i + 1).last() == x@);
        }
        let index = arp_index_of(x);
        let k = index.as_slice();
        let mac = copy_bytes(x.phys_address.as_slice());
        push_cell(&mut out, &e, 1, k, Value::Integer(x.if_index as i64));
        push_cell(&mut out, &e, 2, k, Value::OctetString(mac));
        push_cell(&mut out, &e, 3, k, Value::IpAddress(x.net_address));
        push_cell(&mut out, &e, 4, k, Value::Integer(x.media_type));
        assert(cells(out@) =~= before + net_to_media_row(x@));
        i += 1;
    }
    assert(all.take(i as int) =~= all);
    out
}

/// The cells of the address translation table, in order.
pub fn ip_net_to_media_cells(entries: &[ArpEntry]) -> (r: Vec<(Oid, Value)>)
    ensures
        is_table_of(cells(r@), net_to_media_rows(arp_views(entries@))),
{
    collect_cells(raw_net_to_media_cells(entries))
}

/// The cells of the group.
pub open spec fn ip_group(snmp: Seq<char>, arp: Seq<char>) -> Seq<CellView> {
    ip_scalar_rows(ip_scalars_of(snmp)) + net_to_media_rows(arp_entries_of(arp))
}

/// The handlers of the group, for the texts with the counters and with the addresses.
pub fn ip_handlers(snmp: &str, arp: &str) -> (r: Vec<FnHandler>)
    ensures
        handler_states(r@) == seq![table_state(ip_root(), ip_group(snmp@, arp@))],
{
    let root = Oid::new(vec![1, 3, 6, 1, 2, 1, 4]);
    assert(root@ =~= ip_root());
    let scalars = parse_ip_scalars(snmp);
    let entries = parse_arp_entries(arp);
    let mut out = raw_scalar_cells(&scalars);
    append_cells(&mut out, raw_net_to_media_cells(entries.as_slice()));
    let r = vec![FnHandler::table(root, out)];
    assert(handler_states(r@) =~= seq![table_state(ip_root(), ip_group(snmp@, arp@))]);
    r
}

} // verus!
