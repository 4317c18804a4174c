//! What the protocol groups answer, and how the kernel's text is read for them.

use vstd::prelude::*;

use crate::cells::all_rows;
use crate::cells::Row;
use crate::config::lowered;
use crate::hardware::SensorReading;
use crate::hardware::SensorReadings;
use crate::inet::ipv4_text;
use crate::inet::ipv4_text_reads_back;
use crate::mibgroup::at::at_row;
use crate::mibgroup::at::at_rows;
use crate::mibgroup::collector::mac_of;
use crate::mibgroup::collector::strict_octets;
use crate::mibgroup::etherlike::below_two;
use crate::mibgroup::etherlike::ethernet_rows;
use crate::mibgroup::etherlike::interface_name;
use crate::mibgroup::etherlike::Dot3StatsRow;
use crate::mibgroup::icmp::icmp_scalar_rows;
use crate::mibgroup::icmp::icmp_scalars_of;
use crate::mibgroup::icmp::IcmpScalars;
use crate::mibgroup::interfaces::mac_octets;
use crate::mibgroup::ip::arp_entries_of;
use crate::mibgroup::ip::arp_line;
use crate::mibgroup::ip::ip_group;
use crate::mibgroup::ip::ip_scalar_rows;
use crate::mibgroup::ip::ip_scalars_of;
use crate::mibgroup::ip::net_to_media_row;
use crate::mibgroup::ip::net_to_media_rows;
use crate::mibgroup::ip::ArpView;
use crate::mibgroup::ip::IpScalars;
use crate::mibgroup::kernel_text::below_heading;
use crate::mibgroup::kernel_text::columns_of;
use crate::mibgroup::kernel_text::counter_of;
use crate::mibgroup::kernel_text::endpoint_of;
use crate::mibgroup::kernel_text::has_second_bit;
use crate::mibgroup::kernel_text::hex_ipv4;
use crate::mibgroup::kernel_text::lines_with;
use crate::mibgroup::kernel_text::number_of;
use crate::mibgroup::kernel_text::pairs;
use crate::mibgroup::kernel_text::value_below;
use crate::mibgroup::kernel_text::without_0x;
use crate::mibgroup::kernel_text::ColumnsView;
use crate::mibgroup::lm_sensors::all_sensor_rows;
use crate::mibgroup::lm_sensors::sensor_row;
use crate::mibgroup::lm_sensors::sensor_rows;
use crate::mibgroup::route::device_at;
use crate::mibgroup::route::route_devices;
use crate::mibgroup::route::route_line;
use crate::mibgroup::route::routes_of;
use crate::mibgroup::route::RouteEntry;
use crate::mibgroup::sctp::sctp_rows;
use crate::mibgroup::snmp_mib::counter_cells;
use crate::mibgroup::snmp_mib::SnmpCounter;
use crate::mibgroup::snmp_mpd::mpd_cells;
use crate::mibgroup::snmp_mpd::SnmpMpdStats;
use crate::mibgroup::sysor::sys_or_cells;
use crate::mibgroup::sysor::sys_or_row;
use crate::mibgroup::sysor::SysOrView;
use crate::mibgroup::tcp::tcp_conns_of;
use crate::mibgroup::tcp::tcp_group;
use crate::mibgroup::tcp::tcp_line;
use crate::mibgroup::tcp::tcp_scalar_rows;
use crate::mibgroup::tcp::tcp_scalars_of;
use crate::mibgroup::tcp::TcpConn;
use crate::mibgroup::tcp::TcpScalars;
use crate::mibgroup::udp::udp_entries_of;
use crate::mibgroup::udp::udp_group;
use crate::mibgroup::udp::udp_line;
use crate::mibgroup::udp::udp_scalar_rows;
use crate::mibgroup::udp::udp_scalars_of;
use crate::mibgroup::udp::UdpEntry;
use crate::mibgroup::udp::UdpScalars;
use crate::mibgroup::usm_stats::usm_cells;
use crate::mibgroup::usm_stats::UsmStat;
use crate::table_laws::all_under;
use crate::table_laws::flat;
use crate::table_laws::last_cell_answers;
use crate::table_laws::later_cells_answer_first;
use crate::table_laws::lemma_row_cell;
use crate::table_laws::other_arcs_are_not_answered;
use crate::table_laws::table_answer;
use crate::table_laws::tables_answer_for_their_cells;
use crate::text::decimal;
use crate::text::decimal_reads_back;
use crate::text::find_char;
use crate::text::lemma_find_char;
use crate::text::is_space;
use crate::text::lines;
use crate::text::starts_with;
use crate::text::unsigned_value;
use crate::text::words;
use crate::text_laws::is_blank;
use crate::text_laws::is_tight;
use crate::text_laws::lacks;
use crate::text_laws::last_line_needs_no_line_feed;
use crate::text_laws::lines_end_with_a_line_feed;
use crate::text_laws::minus_negates;
use crate::text_laws::separators_end_pieces;
use crate::text_laws::trimming_takes_the_white_space;
use crate::value::utf8;
use crate::value::Ipv4Addr;
use crate::value::ValueView;

verus! {

/// The index of a connection: its two ends.
pub open spec fn ends_of(c: TcpConn) -> Seq<u32> {
    octets(c.local_addr) + seq![c.local_port as u32] + octets(c.rem_addr) + seq![c.rem_port as u32]
}

/// The index of a listener: its address and port.
pub open spec fn end_of(u: UdpEntry) -> Seq<u32> {
    octets(u.local_addr) + seq![u.local_port as u32]
}

/// The index of a neighbour: its interface and address.
pub open spec fn place_of(e: ArpView) -> Seq<u32> {
    seq![e.if_index] + octets(e.net_address)
}

/// The four octets of an address, as arcs.
pub open spec fn octets(a: Ipv4Addr) -> Seq<u32> {
    seq![a.a as u32, a.b as u32, a.c as u32, a.d as u32]
}

proof fn lemma_connections_are_listed_rows(conns: Seq<TcpConn>)
    ensures
        all_rows(conns) == flat(Seq::new(conns.len(), |i: int| conns[i].row())),
    decreases conns.len(),
{
    let rows = Seq::new(conns.len(), |i: int| conns[i].row());
    if conns.len() > 0 {
        let t = conns.drop_last();
        lemma_connections_are_listed_rows(t);
        assert(rows.drop_last() =~= Seq::new(t.len(), |i: int| t[i].row()));
        assert(rows.last() == conns.last().row());
        assert(all_rows(conns) == all_rows(t) + rows.last());
    } else {
        assert(all_rows(conns) =~= flat(rows));
    }
}

proof fn lemma_connections_are_listed_shape(x: TcpConn, i: int)
    ensures
        x.row().len() == 5,
        forall|j: int|
            0 <= j < 5 ==> (#[trigger] x.row()[j]).0.len() >= 11 && x.row()[j].0.skip(11)
                == ends_of(x),
{
    let row = x.row();
    let ix = ends_of(x);
    assert forall|j: int| 0 <= j < 5 implies (#[trigger] row[j]).0.len() >= 11 && row[j].0.skip(
        11,
    ) == ix by {
        if j == 0 {
            assert(row[0].0.skip(11) =~= ix);
        }         else if j == 1 {
            assert(row[1].0.skip(11) =~= ix);
        }         else if j == 2 {
            assert(row[2].0.skip(11) =~= ix);
        }         else if j == 3 {
            assert(row[3].0.skip(11) =~= ix);
        }         else {
            assert(row[4].0.skip(11) =~= ix);
        }
    }
}

proof fn lemma_connections_are_listed_under(conns: Seq<TcpConn>)
    ensures
        all_under(all_rows(conns), 7, 13),
    decreases conns.len(),
{
    let s = all_rows(conns);
    if conns.len() > 0 {
        let t = conns.drop_last();
        lemma_connections_are_listed_under(t);
        let before = all_rows(t);
        let row = conns.last().row();
        assert(s == before + row);
        assert forall|k: int| 0 <= k < s.len() implies (#[trigger] s[k]).0.len() > 7 && s[k].0[7]
            == 13 by {
            if k < before.len() {
                assert(s[k] == before[k]);
            } else {
                assert(s[k] == row[k - before.len()]);
            }
        }
    }
}

/// `tcpConnTable` answers for each connection, by its two ends, with its state and each end's
/// address and port.
pub proof fn connections_are_listed(conns: Seq<TcpConn>, k: int)
    requires
        0 <= k < conns.len(),
        forall|j: int| k < j < conns.len() ==> ends_of(#[trigger] conns[j]) != ends_of(conns[k]),
    ensures
        ({
            let x = conns[k];
            let t = all_rows(conns);
            let at = ends_of(x);
            &&& table_answer(t, seq![1u32, 3, 6, 1, 2, 1, 6, 13, 1, 1, 1] + at) == Some(
                ValueView::Integer(x.state),
            )
            &&& table_answer(t, seq![1u32, 3, 6, 1, 2, 1, 6, 13, 1, 1, 2] + at) == Some(
                ValueView::IpAddress(x.local_addr),
            )
            &&& table_answer(t, seq![1u32, 3, 6, 1, 2, 1, 6, 13, 1, 1, 3] + at) == Some(
                ValueView::Integer(x.local_port as i64),
            )
            &&& table_answer(t, seq![1u32, 3, 6, 1, 2, 1, 6, 13, 1, 1, 4] + at) == Some(
                ValueView::IpAddress(x.rem_addr),
            )
            &&& table_answer(t, seq![1u32, 3, 6, 1, 2, 1, 6, 13, 1, 1, 5] + at) == Some(
                ValueView::Integer(x.rem_port as i64),
            )
        }),
{
    let rows = Seq::new(conns.len(), |i: int| conns[i].row());
    let ids = Seq::new(conns.len(), |i: int| ends_of(conns[i]));
    lemma_connections_are_listed_rows(conns);
    assert forall|r: int, j: int|
        #![trigger rows[r][j]]
        k <= r < rows.len() && 0 <= j < rows[r].len() implies rows[r][j].0.len() >= 11
            && rows[r][j].0.skip(11) == ids[r] by {
        lemma_connections_are_listed_shape(conns[r], r);
    }
    assert forall|r: int| k < r < rows.len() implies #[trigger] ids[r] != ids[k] by {
        let p = ends_of(conns[r]);
        let q = ends_of(conns[k]);
        assert(p != q);
    }
    let row = rows[k];
    let at = ids[k];
    lemma_connections_are_listed_shape(conns[k], k);
    assert(row[0].0 =~= seq![1u32, 3, 6, 1, 2, 1, 6, 13, 1, 1, 1] + at);
    lemma_row_cell(rows, 11, ids, k, 0);
    assert(row[1].0 =~= seq![1u32, 3, 6, 1, 2, 1, 6, 13, 1, 1, 2] + at);
    lemma_row_cell(rows, 11, ids, k, 1);
    assert(row[2].0 =~= seq![1u32, 3, 6, 1, 2, 1, 6, 13, 1, 1, 3] + at);
    lemma_row_cell(rows, 11, ids, k, 2);
    assert(row[3].0 =~= seq![1u32, 3, 6, 1, 2, 1, 6, 13, 1, 1, 4] + at);
    lemma_row_cell(rows, 11, ids, k, 3);
    assert(row[4].0 =~= seq![1u32, 3, 6, 1, 2, 1, 6, 13, 1, 1, 5] + at);
    lemma_row_cell(rows, 11, ids, k, 4);
}

proof fn lemma_listeners_are_listed_rows(us: Seq<UdpEntry>)
    ensures
        all_rows(us) == flat(Seq::new(us.len(), |i: int| us[i].row())),
    decreases us.len(),
{
    let rows = Seq::new(us.len(), |i: int| us[i].row());
    if us.len() > 0 {
        let t = us.drop_last();
        lemma_listeners_are_listed_rows(t);
        assert(rows.drop_last() =~= Seq::new(t.len(), |i: int| t[i].row()));
        assert(rows.last() == us.last().row());
        assert(all_rows(us) == all_rows(t) + rows.last());
    } else {
        assert(all_rows(us) =~= flat(rows));
    }
}

proof fn lemma_listeners_are_listed_shape(x: UdpEntry, i: int)
    ensures
        x.row().len() == 2,
        forall|j: int|
            0 <= j < 2 ==> (#[trigger] x.row()[j]).0.len() >= 11 && x.row()[j].0.skip(11)
                == end_of(x),
{
    let row = x.row();
    let ix = end_of(x);
    assert forall|j: int| 0 <= j < 2 implies (#[trigger] row[j]).0.len() >= 11 && row[j].0.skip(
        11,
    ) == ix by {
        if j == 0 {
            assert(row[0].0.skip(11) =~= ix);
        }         else {
            assert(row[1].0.skip(11) =~= ix);
        }
    }
}

proof fn lemma_listeners_are_listed_under(us: Seq<UdpEntry>)
    ensures
        all_under(all_rows(us), 7, 5),
    decreases us.len(),
{
    let s = all_rows(us);
    if us.len() > 0 {
        let t = us.drop_last();
        lemma_listeners_are_listed_under(t);
        let before = all_rows(t);
        let row = us.last().row();
        assert(s == before + row);
        assert forall|k: int| 0 <= k < s.len() implies (#[trigger] s[k]).0.len() > 7 && s[k].0[7]
            == 5 by {
            if k < before.len() {
                assert(s[k] == before[k]);
            } else {
                assert(s[k] == row[k - before.len()]);
            }
        }
    }
}

/// `udpTable` answers for each listener with its address and port.
pub proof fn listeners_are_listed(us: Seq<UdpEntry>, k: int)
    requires
        0 <= k < us.len(),
        forall|j: int| k < j < us.len() ==> end_of(#[trigger] us[j]) != end_of(us[k]),
    ensures
        ({
            let x = us[k];
            let t = all_rows(us);
            let at = end_of(x);
            &&& table_answer(t, seq![1u32, 3, 6, 1, 2, 1, 7, 5, 1, 1, 1] + at) == Some(
                ValueView::IpAddress(x.local_addr),
            )
            &&& table_answer(t, seq![1u32, 3, 6, 1, 2, 1, 7, 5, 1, 1, 2] + at) == Some(
                ValueView::Integer(x.local_port as i64),
            )
        }),
{
    let rows = Seq::new(us.len(), |i: int| us[i].row());
    let ids = Seq::new(us.len(), |i: int| end_of(us[i]));
    lemma_listeners_are_listed_rows(us);
    assert forall|r: int, j: int|
        #![trigger rows[r][j]]
        k <= r < rows.len() && 0 <= j < rows[r].len() implies rows[r][j].0.len() >= 11
            && rows[r][j].0.skip(11) == ids[r] by {
        lemma_listeners_are_listed_shape(us[r], r);
    }
    assert forall|r: int| k < r < rows.len() implies #[trigger] ids[r] != ids[k] by {
        let p = end_of(us[r]);
        let q = end_of(us[k]);
        assert(p != q);
    }
    let row = rows[k];
    let at = ids[k];
    lemma_listeners_are_listed_shape(us[k], k);
    assert(row[0].0 =~= seq![1u32, 3, 6, 1, 2, 1, 7, 5, 1, 1, 1] + at);
    lemma_row_cell(rows, 11, ids, k, 0);
    assert(row[1].0 =~= seq![1u32, 3, 6, 1, 2, 1, 7, 5, 1, 1, 2] + at);
    lemma_row_cell(rows, 11, ids, k, 1);
}

proof fn lemma_neighbours_are_listed_rows(es: Seq<ArpView>)
    ensures
        net_to_media_rows(es) == flat(Seq::new(es.len(), |i: int| net_to_media_row(es[i]))),
    decreases es.len(),
{
    let rows = Seq::new(es.len(), |i: int| net_to_media_row(es[i]));
    if es.len() > 0 {
        let t = es.drop_last();
        lemma_neighbours_are_listed_rows(t);
        assert(rows.drop_last() =~= Seq::new(t.len(), |i: int| net_to_media_row(t[i])));
        assert(rows.last() == net_to_media_row(es.last()));
        assert(net_to_media_rows(es) == net_to_media_rows(t) + rows.last());
    } else {
        assert(net_to_media_rows(es) =~= flat(rows));
    }
}

proof fn lemma_neighbours_are_listed_shape(x: ArpView, i: int)
    ensures
        net_to_media_row(x).len() == 4,
        forall|j: int|
            0 <= j < 4
                ==> (#[trigger] net_to_media_row(x)[j]).0.len() >= 11
                    && net_to_media_row(x)[j].0.skip(11)
                == place_of(x),
{
    let row = net_to_media_row(x);
    let ix = place_of(x);
    assert forall|j: int| 0 <= j < 4 implies (#[trigger] row[j]).0.len() >= 11 && row[j].0.skip(
        11,
    ) == ix by {
        if j == 0 {
            assert(row[0].0.skip(11) =~= ix);
        }         else if j == 1 {
            assert(row[1].0.skip(11) =~= ix);
        }         else if j == 2 {
            assert(row[2].0.skip(11) =~= ix);
        }         else {
            assert(row[3].0.skip(11) =~= ix);
        }
    }
}

proof fn lemma_neighbours_are_listed_under(es: Seq<ArpView>)
    ensures
        all_under(net_to_media_rows(es), 7, 22),
    decreases es.len(),
{
    let s = net_to_media_rows(es);
    if es.len() > 0 {
        let t = es.drop_last();
        lemma_neighbours_are_listed_under(t);
        let before = net_to_media_rows(t);
        let row = net_to_media_row(es.last());
        assert(s == before + row);
        assert forall|k: int| 0 <= k < s.len() implies (#[trigger] s[k]).0.len() > 7 && s[k].0[7]
            == 22 by {
            if k < before.len() {
                assert(s[k] == before[k]);
            } else {
                assert(s[k] == row[k - before.len()]);
            }
        }
    }
}

/// `ipNetToMediaTable` answers for each neighbour, by its interface and address, with its hardware
/// address and how it is known.
pub proof fn neighbours_are_listed(es: Seq<ArpView>, k: int)
    requires
        0 <= k < es.len(),
        forall|j: int| k < j < es.len() ==> place_of(#[trigger] es[j]) != place_of(es[k]),
    ensures
        ({
            let x = es[k];
            let t = net_to_media_rows(es);
            let at = place_of(x);
            &&& table_answer(t, seq![1u32, 3, 6, 1, 2, 1, 4, 22, 1, 1, 1] + at) == Some(
                ValueView::Integer(x.if_index as i64),
            )
            &&& table_answer(t, seq![1u32, 3, 6, 1, 2, 1, 4, 22, 1, 1, 2] + at) == Some(
                ValueView::OctetString(x.phys_address),
            )
            &&& table_answer(t, seq![1u32, 3, 6, 1, 2, 1, 4, 22, 1, 1, 3] + at) == Some(
                ValueView::IpAddress(x.net_address),
            )
            &&& table_answer(t, seq![1u32, 3, 6, 1, 2, 1, 4, 22, 1, 1, 4] + at) == Some(
                ValueView::Integer(x.media_type),
            )
        }),
{
    let rows = Seq::new(es.len(), |i: int| net_to_media_row(es[i]));
    let ids = Seq::new(es.len(), |i: int| place_of(es[i]));
    lemma_neighbours_are_listed_rows(es);
    assert forall|r: int, j: int|
        #![trigger rows[r][j]]
        k <= r < rows.len() && 0 <= j < rows[r].len() implies rows[r][j].0.len() >= 11
            && rows[r][j].0.skip(11) == ids[r] by {
        lemma_neighbours_are_listed_shape(es[r], r);
    }
    assert forall|r: int| k < r < rows.len() implies #[trigger] ids[r] != ids[k] by {
        let p = place_of(es[r]);
        let q = place_of(es[k]);
        assert(p != q);
    }
    let row = rows[k];
    let at = ids[k];
    lemma_neighbours_are_listed_shape(es[k], k);
    assert(row[0].0 =~= seq![1u32, 3, 6, 1, 2, 1, 4, 22, 1, 1, 1] + at);
    lemma_row_cell(rows, 11, ids, k, 0);
    assert(row[1].0 =~= seq![1u32, 3, 6, 1, 2, 1, 4, 22, 1, 1, 2] + at);
    lemma_row_cell(rows, 11, ids, k, 1);
    assert(row[2].0 =~= seq![1u32, 3, 6, 1, 2, 1, 4, 22, 1, 1, 3] + at);
    lemma_row_cell(rows, 11, ids, k, 2);
    assert(row[3].0 =~= seq![1u32, 3, 6, 1, 2, 1, 4, 22, 1, 1, 4] + at);
    lemma_row_cell(rows, 11, ids, k, 3);
}

proof fn lemma_translations_are_listed_rows(es: Seq<ArpView>)
    ensures
        at_rows(es) == flat(Seq::new(es.len(), |i: int| at_row(es[i]))),
    decreases es.len(),
{
    let rows = Seq::new(es.len(), |i: int| at_row(es[i]));
    if es.len() > 0 {
        let t = es.drop_last();
        lemma_translations_are_listed_rows(t);
        assert(rows.drop_last() =~= Seq::new(t.len(), |i: int| at_row(t[i])));
        assert(rows.last() == at_row(es.last()));
        assert(at_rows(es) == at_rows(t) + rows.last());
    } else {
        assert(at_rows(es) =~= flat(rows));
    }
}

proof fn lemma_translations_are_listed_shape(x: ArpView, i: int)
    ensures
        at_row(x).len() == 3,
        forall|j: int|
            0 <= j < 3 ==> (#[trigger] at_row(x)[j]).0.len() >= 11 && at_row(x)[j].0.skip(11)
                == place_of(x),
{
    let row = at_row(x);
    let ix = place_of(x);
    assert forall|j: int| 0 <= j < 3 implies (#[trigger] row[j]).0.len() >= 11 && row[j].0.skip(
        11,
    ) == ix by {
        if j == 0 {
            assert(row[0].0.skip(11) =~= ix);
        }         else if j == 1 {
            assert(row[1].0.skip(11) =~= ix);
        }         else {
            assert(row[2].0.skip(11) =~= ix);
        }
    }
}

/// `atTable` answers for each neighbour, by its interface and address, with its hardware address.
pub proof fn translations_are_listed(es: Seq<ArpView>, k: int)
    requires
        0 <= k < es.len(),
        forall|j: int| k < j < es.len() ==> place_of(#[trigger] es[j]) != place_of(es[k]),
    ensures
        ({
            let x = es[k];
            let t = at_rows(es);
            let at = place_of(x);
            &&& table_answer(t, seq![1u32, 3, 6, 1, 2, 1, 3, 1, 1, 1, 1] + at) == Some(
                ValueView::Integer(x.if_index as i64),
            )
            &&& table_answer(t, seq![1u32, 3, 6, 1, 2, 1, 3, 1, 1, 1, 2] + at) == Some(
                ValueView::OctetString(x.phys_address),
            )
            &&& table_answer(t, seq![1u32, 3, 6, 1, 2, 1, 3, 1, 1, 1, 3] + at) == Some(
                ValueView::IpAddress(x.net_address),
            )
        }),
{
    let rows = Seq::new(es.len(), |i: int| at_row(es[i]));
    let ids = Seq::new(es.len(), |i: int| place_of(es[i]));
    lemma_translations_are_listed_rows(es);
    assert forall|r: int, j: int|
        #![trigger rows[r][j]]
        k <= r < rows.len() && 0 <= j < rows[r].len() implies rows[r][j].0.len() >= 11
            && rows[r][j].0.skip(11) == ids[r] by {
        lemma_translations_are_listed_shape(es[r], r);
    }
    assert forall|r: int| k < r < rows.len() implies #[trigger] ids[r] != ids[k] by {
        let p = place_of(es[r]);
        let q = place_of(es[k]);
        assert(p != q);
    }
    let row = rows[k];
    let at = ids[k];
    lemma_translations_are_listed_shape(es[k], k);
    assert(row[0].0 =~= seq![1u32, 3, 6, 1, 2, 1, 3, 1, 1, 1, 1] + at);
    lemma_row_cell(rows, 11, ids, k, 0);
    assert(row[1].0 =~= seq![1u32, 3, 6, 1, 2, 1, 3, 1, 1, 1, 2] + at);
    lemma_row_cell(rows, 11, ids, k, 1);
    assert(row[2].0 =~= seq![1u32, 3, 6, 1, 2, 1, 3, 1, 1, 1, 3] + at);
    lemma_row_cell(rows, 11, ids, k, 2);
}

proof fn lemma_routes_are_listed_rows(rs: Seq<RouteEntry>)
    ensures
        all_rows(rs) == flat(Seq::new(rs.len(), |i: int| rs[i].row())),
    decreases rs.len(),
{
    let rows = Seq::new(rs.len(), |i: int| rs[i].row());
    if rs.len() > 0 {
        let t = rs.drop_last();
        lemma_routes_are_listed_rows(t);
        assert(rows.drop_last() =~= Seq::new(t.len(), |i: int| t[i].row()));
        assert(rows.last() == rs.last().row());
        assert(all_rows(rs) == all_rows(t) + rows.last());
    } else {
        assert(all_rows(rs) =~= flat(rows));
    }
}

proof fn lemma_routes_are_listed_shape(x: RouteEntry, i: int)
    ensures
        x.row().len() == 10,
        forall|j: int|
            0 <= j < 10 ==> (#[trigger] x.row()[j]).0.len() >= 11 && x.row()[j].0.skip(11)
                == octets(x.dest),
{
    let row = x.row();
    let ix = octets(x.dest);
    assert forall|j: int| 0 <= j < 10 implies (#[trigger] row[j]).0.len() >= 11 && row[j].0.skip(
        11,
    ) == ix by {
        if j == 0 {
            assert(row[0].0.skip(11) =~= ix);
        }         else if j == 1 {
            assert(row[1].0.skip(11) =~= ix);
        }         else if j == 2 {
            assert(row[2].0.skip(11) =~= ix);
        }         else if j == 3 {
            assert(row[3].0.skip(11) =~= ix);
        }         else if j == 4 {
            assert(row[4].0.skip(11) =~= ix);
        }         else if j == 5 {
            assert(row[5].0.skip(11) =~= ix);
        }         else if j == 6 {
            assert(row[6].0.skip(11) =~= ix);
        }         else if j == 7 {
            assert(row[7].0.skip(11) =~= ix);
        }         else if j == 8 {
            assert(row[8].0.skip(11) =~= ix);
        }         else {
            assert(row[9].0.skip(11) =~= ix);
        }
    }
}

/// `ipRouteTable` answers for each route, by its destination, with its interface, metrics, next
/// hop, type, protocol and mask.
pub proof fn routes_are_listed(rs: Seq<RouteEntry>, k: int)
    requires
        0 <= k < rs.len(),
        forall|j: int| k < j < rs.len() ==> octets((#[trigger] rs[j]).dest) != octets(rs[k].dest),
    ensures
        ({
            let x = rs[k];
            let t = all_rows(rs);
            let at = octets(x.dest);
            &&& table_answer(t, seq![1u32, 3, 6, 1, 2, 1, 4, 21, 1, 1, 1] + at) == Some(
                ValueView::IpAddress(x.dest),
            )
            &&& table_answer(t, seq![1u32, 3, 6, 1, 2, 1, 4, 21, 1, 1, 2] + at) == Some(
                ValueView::Integer(x.if_index),
            )
            &&& table_answer(t, seq![1u32, 3, 6, 1, 2, 1, 4, 21, 1, 1, 3] + at) == Some(
                ValueView::Integer(x.metric1),
            )
            &&& table_answer(t, seq![1u32, 3, 6, 1, 2, 1, 4, 21, 1, 1, 4] + at) == Some(
                ValueView::Integer(x.metric2),
            )
            &&& table_answer(t, seq![1u32, 3, 6, 1, 2, 1, 4, 21, 1, 1, 5] + at) == Some(
                ValueView::Integer(x.metric3),
            )
            &&& table_answer(t, seq![1u32, 3, 6, 1, 2, 1, 4, 21, 1, 1, 6] + at) == Some(
                ValueView::Integer(x.metric4),
            )
            &&& table_answer(t, seq![1u32, 3, 6, 1, 2, 1, 4, 21, 1, 1, 7] + at) == Some(
                ValueView::IpAddress(x.next_hop),
            )
            &&& table_answer(t, seq![1u32, 3, 6, 1, 2, 1, 4, 21, 1, 1, 8] + at) == Some(
                ValueView::Integer(x.route_type),
            )
            &&& table_answer(t, seq![1u32, 3, 6, 1, 2, 1, 4, 21, 1, 1, 9] + at) == Some(
                ValueView::Integer(x.route_proto),
            )
            &&& table_answer(t, seq![1u32, 3, 6, 1, 2, 1, 4, 21, 1, 1, 11] + at) == Some(
                ValueView::IpAddress(x.mask),
            )
        }),
{
    let rows = Seq::new(rs.len(), |i: int| rs[i].row());
    let ids = Seq::new(rs.len(), |i: int| octets(rs[i].dest));
    lemma_routes_are_listed_rows(rs);
    assert forall|r: int, j: int|
        #![trigger rows[r][j]]
        k <= r < rows.len() && 0 <= j < rows[r].len() implies rows[r][j].0.len() >= 11
            && rows[r][j].0.skip(11) == ids[r] by {
        lemma_routes_are_listed_shape(rs[r], r);
    }
    assert forall|r: int| k < r < rows.len() implies #[trigger] ids[r] != ids[k] by {
        let p = octets(rs[r].dest);
        let q = octets(rs[k].dest);
        assert(p != q);
    }
    let row = rows[k];
    let at = ids[k];
    lemma_routes_are_listed_shape(rs[k], k);
    assert(row[0].0 =~= seq![1u32, 3, 6, 1, 2, 1, 4, 21, 1, 1, 1] + at);
    lemma_row_cell(rows, 11, ids, k, 0);
    assert(row[1].0 =~= seq![1u32, 3, 6, 1, 2, 1, 4, 21, 1, 1, 2] + at);
    lemma_row_cell(rows, 11, ids, k, 1);
    assert(row[2].0 =~= seq![1u32, 3, 6, 1, 2, 1, 4, 21, 1, 1, 3] + at);
    lemma_row_cell(rows, 11, ids, k, 2);
    assert(row[3].0 =~= seq![1u32, 3, 6, 1, 2, 1, 4, 21, 1, 1, 4] + at);
    lemma_row_cell(rows, 11, ids, k, 3);
    assert(row[4].0 =~= seq![1u32, 3, 6, 1, 2, 1, 4, 21, 1, 1, 5] + at);
    lemma_row_cell(rows, 11, ids, k, 4);
    assert(row[5].0 =~= seq![1u32, 3, 6, 1, 2, 1, 4, 21, 1, 1, 6] + at);
    lemma_row_cell(rows, 11, ids, k, 5);
    assert(row[6].0 =~= seq![1u32, 3, 6, 1, 2, 1, 4, 21, 1, 1, 7] + at);
    lemma_row_cell(rows, 11, ids, k, 6);
    assert(row[7].0 =~= seq![1u32, 3, 6, 1, 2, 1, 4, 21, 1, 1, 8] + at);
    lemma_row_cell(rows, 11, ids, k, 7);
    assert(row[8].0 =~= seq![1u32, 3, 6, 1, 2, 1, 4, 21, 1, 1, 9] + at);
    lemma_row_cell(rows, 11, ids, k, 8);
    assert(row[9].0 =~= seq![1u32, 3, 6, 1, 2, 1, 4, 21, 1, 1, 11] + at);
    lemma_row_cell(rows, 11, ids, k, 9);
}

proof fn lemma_ethernets_are_listed_rows(rs: Seq<Dot3StatsRow>)
    ensures
        all_rows(rs) == flat(Seq::new(rs.len(), |i: int| rs[i].row())),
    decreases rs.len(),
{
    let rows = Seq::new(rs.len(), |i: int| rs[i].row());
    if rs.len() > 0 {
        let t = rs.drop_last();
        lemma_ethernets_are_listed_rows(t);
        assert(rows.drop_last() =~= Seq::new(t.len(), |i: int| t[i].row()));
        assert(rows.last() == rs.last().row());
        assert(all_rows(rs) == all_rows(t) + rows.last());
    } else {
        assert(all_rows(rs) =~= flat(rows));
    }
}

proof fn lemma_ethernets_are_listed_shape(x: Dot3StatsRow, i: int)
    ensures
        x.row().len() == 8,
        forall|j: int|
            0 <= j < 8 ==> (#[trigger] x.row()[j]).0.len() >= 12 && x.row()[j].0.skip(12)
                == seq![x.if_index],
{
    let row = x.row();
    let ix = seq![x.if_index];
    assert forall|j: int| 0 <= j < 8 implies (#[trigger] row[j]).0.len() >= 12 && row[j].0.skip(
        12,
    ) == ix by {
        if j == 0 {
            assert(row[0].0.skip(12) =~= ix);
        }         else if j == 1 {
            assert(row[1].0.skip(12) =~= ix);
        }         else if j == 2 {
            assert(row[2].0.skip(12) =~= ix);
        }         else if j == 3 {
            assert(row[3].0.skip(12) =~= ix);
        }         else if j == 4 {
            assert(row[4].0.skip(12) =~= ix);
        }         else if j == 5 {
            assert(row[5].0.skip(12) =~= ix);
        }         else if j == 6 {
            assert(row[6].0.skip(12) =~= ix);
        }         else {
            assert(row[7].0.skip(12) =~= ix);
        }
    }
}

/// `dot3StatsTable` answers for each Ethernet interface, with no errors counted.
pub proof fn ethernets_are_listed(rs: Seq<Dot3StatsRow>, k: int)
    requires
        0 <= k < rs.len(),
        forall|j: int| k < j < rs.len() ==> (#[trigger] rs[j]).if_index != rs[k].if_index,
    ensures
        ({
            let x = rs[k];
            let t = all_rows(rs);
            let at = seq![x.if_index];
            &&& table_answer(t, seq![1u32, 3, 6, 1, 2, 1, 10, 7, 2, 1, 1, 1] + at) == Some(
                ValueView::Integer(x.if_index as i64),
            )
            &&& table_answer(t, seq![1u32, 3, 6, 1, 2, 1, 10, 7, 2, 1, 1, 3] + at) == Some(
                ValueView::Counter32(0),
            )
            &&& table_answer(t, seq![1u32, 3, 6, 1, 2, 1, 10, 7, 2, 1, 1, 7] + at) == Some(
                ValueView::Counter32(0),
            )
            &&& table_answer(t, seq![1u32, 3, 6, 1, 2, 1, 10, 7, 2, 1, 1, 10] + at) == Some(
                ValueView::Counter32(0),
            )
            &&& table_answer(t, seq![1u32, 3, 6, 1, 2, 1, 10, 7, 2, 1, 1, 11] + at) == Some(
                ValueView::Counter32(0),
            )
            &&& table_answer(t, seq![1u32, 3, 6, 1, 2, 1, 10, 7, 2, 1, 1, 13] + at) == Some(
                ValueView::Counter32(0),
            )
            &&& table_answer(t, seq![1u32, 3, 6, 1, 2, 1, 10, 7, 2, 1, 1, 16] + at) == Some(
                ValueView::Counter32(0),
            )
            &&& table_answer(t, seq![1u32, 3, 6, 1, 2, 1, 10, 7, 2, 1, 1, 17] + at) == Some(
                ValueView::Oid(seq![0u32, 0]),
            )
        }),
{
    let rows = Seq::new(rs.len(), |i: int| rs[i].row());
    let ids = Seq::new(rs.len(), |i: int| seq![rs[i].if_index]);
    lemma_ethernets_are_listed_rows(rs);
    assert forall|r: int, j: int|
        #![trigger rows[r][j]]
        k <= r < rows.len() && 0 <= j < rows[r].len() implies rows[r][j].0.len() >= 12
            && rows[r][j].0.skip(12) == ids[r] by {
        lemma_ethernets_are_listed_shape(rs[r], r);
    }
    assert forall|r: int| k < r < rows.len() implies #[trigger] ids[r] != ids[k] by {
        let p = seq![rs[r].if_index];
        let q = seq![rs[k].if_index];
        assert(p[0] != q[0]);
    }
    let row = rows[k];
    let at = ids[k];
    lemma_ethernets_are_listed_shape(rs[k], k);
    assert(row[0].0 =~= seq![1u32, 3, 6, 1, 2, 1, 10, 7, 2, 1, 1, 1] + at);
    lemma_row_cell(rows, 12, ids, k, 0);
    assert(row[1].0 =~= seq![1u32, 3, 6, 1, 2, 1, 10, 7, 2, 1, 1, 3] + at);
    lemma_row_cell(rows, 12, ids, k, 1);
    assert(row[2].0 =~= seq![1u32, 3, 6, 1, 2, 1, 10, 7, 2, 1, 1, 7] + at);
    lemma_row_cell(rows, 12, ids, k, 2);
    assert(row[3].0 =~= seq![1u32, 3, 6, 1, 2, 1, 10, 7, 2, 1, 1, 10] + at);
    lemma_row_cell(rows, 12, ids, k, 3);
    assert(row[4].0 =~= seq![1u32, 3, 6, 1, 2, 1, 10, 7, 2, 1, 1, 11] + at);
    lemma_row_cell(rows, 12, ids, k, 4);
    assert(row[5].0 =~= seq![1u32, 3, 6, 1, 2, 1, 10, 7, 2, 1, 1, 13] + at);
    lemma_row_cell(rows, 12, ids, k, 5);
    assert(row[6].0 =~= seq![1u32, 3, 6, 1, 2, 1, 10, 7, 2, 1, 1, 16] + at);
    lemma_row_cell(rows, 12, ids, k, 6);
    assert(row[7].0 =~= seq![1u32, 3, 6, 1, 2, 1, 10, 7, 2, 1, 1, 17] + at);
    lemma_row_cell(rows, 12, ids, k, 7);
}

proof fn lemma_sensors_are_listed_rows(table_id: u32, rs: Seq<SensorReading>)
    ensures
        sensor_rows(table_id, rs) == flat(
            Seq::new(rs.len(), |i: int| sensor_row(table_id, (i + 1) as u32, rs[i])),
        ),
    decreases rs.len(),
{
    let rows = Seq::new(rs.len(), |i: int| sensor_row(table_id, (i + 1) as u32, rs[i]));
    if rs.len() > 0 {
        let t = rs.drop_last();
        lemma_sensors_are_listed_rows(table_id, t);
        assert(
            rows.drop_last() =~= Seq::new(
                t.len(),
                |i: int| sensor_row(table_id, (i + 1) as u32, t[i]),
            )
        );
        assert(rows.last() == sensor_row(table_id, ((rs.len() - 1) + 1) as u32, rs.last()));
        assert(sensor_rows(table_id, rs) == sensor_rows(table_id, t) + rows.last());
    } else {
        assert(sensor_rows(table_id, rs) =~= flat(rows));
    }
}

proof fn lemma_sensors_are_listed_shape(x: SensorReading, i: int, table_id: u32)
    ensures
        sensor_row(table_id, (i + 1) as u32, x).len() == 4,
        forall|j: int|
            0 <= j < 4
                ==> (#[trigger] sensor_row(table_id, (i + 1) as u32, x)[j]).0.len() >= 12
                    && sensor_row(table_id, (i + 1) as u32, x)[j].0.skip(12)
                == seq![(i + 1) as u32],
{
    let row = sensor_row(table_id, (i + 1) as u32, x);
    let ix = seq![(i + 1) as u32];
    assert forall|j: int| 0 <= j < 4 implies (#[trigger] row[j]).0.len() >= 12 && row[j].0.skip(
        12,
    ) == ix by {
        if j == 0 {
            assert(row[0].0.skip(12) =~= ix);
        }         else if j == 1 {
            assert(row[1].0.skip(12) =~= ix);
        }         else if j == 2 {
            assert(row[2].0.skip(12) =~= ix);
        }         else {
            assert(row[3].0.skip(12) =~= ix);
        }
    }
}

proof fn lemma_sensors_are_listed_under(table_id: u32, rs: Seq<SensorReading>)
    ensures
        all_under(sensor_rows(table_id, rs), 9, table_id),
    decreases rs.len(),
{
    let s = sensor_rows(table_id, rs);
    if rs.len() > 0 {
        let t = rs.drop_last();
        lemma_sensors_are_listed_under(table_id, t);
        let before = sensor_rows(table_id, t);
        let row = sensor_row(table_id, ((rs.len() - 1) + 1) as u32, rs.last());
        assert(s == before + row);
        assert forall|k: int| 0 <= k < s.len() implies (#[trigger] s[k]).0.len() > 9 && s[k].0[9]
            == table_id by {
            if k < before.len() {
                assert(s[k] == before[k]);
            } else {
                assert(s[k] == row[k - before.len()]);
            }
        }
    }
}

/// Each table of sensors answers for its readings, in order, with the name and the reading.
pub proof fn sensors_are_listed(table_id: u32, rs: Seq<SensorReading>, k: int)
    requires
        0 <= k < rs.len(),
        rs.len() <= u32::MAX,
    ensures
        ({
            let x = rs[k];
            let t = sensor_rows(table_id, rs);
            let at = seq![(k + 1) as u32];
            &&& table_answer(
                t,
                seq![1u32, 3, 6, 1, 4, 1, 2021, 13, 16, table_id, 1, 1] + at,
            ) == Some(ValueView::Integer((k + 1) as i64))
            &&& table_answer(
                t,
                seq![1u32, 3, 6, 1, 4, 1, 2021, 13, 16, table_id, 1, 2] + at,
            ) == Some(ValueView::OctetString(utf8(x.name@)))
            &&& table_answer(
                t,
                seq![1u32, 3, 6, 1, 4, 1, 2021, 13, 16, table_id, 1, 3] + at,
            ) == Some(ValueView::Integer(x.value))
            &&& table_answer(
                t,
                seq![1u32, 3, 6, 1, 4, 1, 2021, 13, 16, table_id, 1, 4] + at,
            ) == Some(ValueView::Integer(0))
        }),
{
    let rows = Seq::new(rs.len(), |i: int| sensor_row(table_id, (i + 1) as u32, rs[i]));
    let ids = Seq::new(rs.len(), |i: int| seq![(i + 1) as u32]);
    lemma_sensors_are_listed_rows(table_id, rs);
    assert forall|r: int, j: int|
        #![trigger rows[r][j]]
        k <= r < rows.len() && 0 <= j < rows[r].len() implies rows[r][j].0.len() >= 12
            && rows[r][j].0.skip(12) == ids[r] by {
        lemma_sensors_are_listed_shape(rs[r], r, table_id);
    }
    assert forall|r: int| k < r < rows.len() implies #[trigger] ids[r] != ids[k] by {
        let p = seq![(r + 1) as u32];
        let q = seq![(k + 1) as u32];
        assert(p[0] != q[0]);
    }
    let row = rows[k];
    let at = ids[k];
    lemma_sensors_are_listed_shape(rs[k], k, table_id);
    assert(row[0].0 =~= seq![1u32, 3, 6, 1, 4, 1, 2021, 13, 16, table_id, 1, 1] + at);
    lemma_row_cell(rows, 12, ids, k, 0);
    assert(row[1].0 =~= seq![1u32, 3, 6, 1, 4, 1, 2021, 13, 16, table_id, 1, 2] + at);
    lemma_row_cell(rows, 12, ids, k, 1);
    assert(row[2].0 =~= seq![1u32, 3, 6, 1, 4, 1, 2021, 13, 16, table_id, 1, 3] + at);
    lemma_row_cell(rows, 12, ids, k, 2);
    assert(row[3].0 =~= seq![1u32, 3, 6, 1, 4, 1, 2021, 13, 16, table_id, 1, 4] + at);
    lemma_row_cell(rows, 12, ids, k, 3);
}

proof fn lemma_supported_modules_are_listed_rows(rs: Seq<SysOrView>)
    ensures
        sys_or_cells(rs) == flat(Seq::new(rs.len(), |i: int| sys_or_row((i + 1) as u32, rs[i]))),
    decreases rs.len(),
{
    let rows = Seq::new(rs.len(), |i: int| sys_or_row((i + 1) as u32, rs[i]));
    if rs.len() > 0 {
        let t = rs.drop_last();
        lemma_supported_modules_are_listed_rows(t);
        assert(rows.drop_last() =~= Seq::new(t.len(), |i: int| sys_or_row((i + 1) as u32, t[i])));
        assert(rows.last() == sys_or_row(((rs.len() - 1) + 1) as u32, rs.last()));
        assert(sys_or_cells(rs) == sys_or_cells(t) + rows.last());
    } else {
        assert(sys_or_cells(rs) =~= flat(rows));
    }
}

proof fn lemma_supported_modules_are_listed_shape(x: SysOrView, i: int)
    ensures
        sys_or_row((i + 1) as u32, x).len() == 3,
        forall|j: int|
            0 <= j < 3
                ==> (#[trigger] sys_or_row((i + 1) as u32, x)[j]).0.len() >= 10
                    && sys_or_row((i + 1) as u32, x)[j].0.skip(10)
                == seq![(i + 1) as u32],
{
    let row = sys_or_row((i + 1) as u32, x);
    let ix = seq![(i + 1) as u32];
    assert forall|j: int| 0 <= j < 3 implies (#[trigger] row[j]).0.len() >= 10 && row[j].0.skip(
        10,
    ) == ix by {
        if j == 0 {
            assert(row[0].0.skip(10) =~= ix);
        }         else if j == 1 {
            assert(row[1].0.skip(10) =~= ix);
        }         else {
            assert(row[2].0.skip(10) =~= ix);
        }
    }
}

/// `sysORTable` answers for each entry, in order, with its identifier, description and time.
pub proof fn supported_modules_are_listed(rs: Seq<SysOrView>, k: int)
    requires
        0 <= k < rs.len(),
        rs.len() <= u32::MAX,
    ensures
        ({
            let x = rs[k];
            let t = sys_or_cells(rs);
            let at = seq![(k + 1) as u32];
            &&& table_answer(t, seq![1u32, 3, 6, 1, 2, 1, 1, 9, 1, 2] + at) == Some(
                ValueView::Oid(x.id),
            )
            &&& table_answer(t, seq![1u32, 3, 6, 1, 2, 1, 1, 9, 1, 3] + at) == Some(
                ValueView::OctetString(utf8(x.descr)),
            )
            &&& table_answer(t, seq![1u32, 3, 6, 1, 2, 1, 1, 9, 1, 4] + at) == Some(
                ValueView::TimeTicks(x.uptime_ticks),
            )
        }),
{
    let rows = Seq::new(rs.len(), |i: int| sys_or_row((i + 1) as u32, rs[i]));
    let ids = Seq::new(rs.len(), |i: int| seq![(i + 1) as u32]);
    lemma_supported_modules_are_listed_rows(rs);
    assert forall|r: int, j: int|
        #![trigger rows[r][j]]
        k <= r < rows.len() && 0 <= j < rows[r].len() implies rows[r][j].0.len() >= 10
            && rows[r][j].0.skip(10) == ids[r] by {
        lemma_supported_modules_are_listed_shape(rs[r], r);
    }
    assert forall|r: int| k < r < rows.len() implies #[trigger] ids[r] != ids[k] by {
        let p = seq![(r + 1) as u32];
        let q = seq![(k + 1) as u32];
        assert(p[0] != q[0]);
    }
    let row = rows[k];
    let at = ids[k];
    lemma_supported_modules_are_listed_shape(rs[k], k);
    assert(row[0].0 =~= seq![1u32, 3, 6, 1, 2, 1, 1, 9, 1, 2] + at);
    lemma_row_cell(rows, 10, ids, k, 0);
    assert(row[1].0 =~= seq![1u32, 3, 6, 1, 2, 1, 1, 9, 1, 3] + at);
    lemma_row_cell(rows, 10, ids, k, 1);
    assert(row[2].0 =~= seq![1u32, 3, 6, 1, 2, 1, 1, 9, 1, 4] + at);
    lemma_row_cell(rows, 10, ids, k, 2);
}

/// The TCP scalars are the fixed parameters and each counter under its own arc.
pub proof fn tcp_scalars_are_listed(s: TcpScalars)
    ensures
        ({
            let t = tcp_scalar_rows(s);
            &&& table_answer(t, seq![1u32, 3, 6, 1, 2, 1, 6, 1, 0]) == Some(ValueView::Integer(1))
            &&& table_answer(t, seq![1u32, 3, 6, 1, 2, 1, 6, 2, 0]) == Some(ValueView::Integer(200))
            &&& table_answer(t, seq![1u32, 3, 6, 1, 2, 1, 6, 3, 0]) == Some(
                ValueView::Integer(120_000),
            )
            &&& table_answer(t, seq![1u32, 3, 6, 1, 2, 1, 6, 4, 0]) == Some(
                ValueView::Integer(-1i64),
            )
            &&& table_answer(t, seq![1u32, 3, 6, 1, 2, 1, 6, 5, 0]) == Some(
                ValueView::Counter32(s.active_opens),
            )
            &&& table_answer(t, seq![1u32, 3, 6, 1, 2, 1, 6, 6, 0]) == Some(
                ValueView::Counter32(s.passive_opens),
            )
            &&& table_answer(t, seq![1u32, 3, 6, 1, 2, 1, 6, 7, 0]) == Some(
                ValueView::Counter32(s.attempt_fails),
            )
            &&& table_answer(t, seq![1u32, 3, 6, 1, 2, 1, 6, 8, 0]) == Some(
                ValueView::Counter32(s.estab_resets),
            )
            &&& table_answer(t, seq![1u32, 3, 6, 1, 2, 1, 6, 9, 0]) == Some(
                ValueView::Gauge32(s.curr_estab),
            )
            &&& table_answer(t, seq![1u32, 3, 6, 1, 2, 1, 6, 10, 0]) == Some(
                ValueView::Counter32(s.in_segs),
            )
            &&& table_answer(t, seq![1u32, 3, 6, 1, 2, 1, 6, 11, 0]) == Some(
                ValueView::Counter32(s.out_segs),
            )
            &&& table_answer(t, seq![1u32, 3, 6, 1, 2, 1, 6, 12, 0]) == Some(
                ValueView::Counter32(s.retrans_segs),
            )
            &&& table_answer(t, seq![1u32, 3, 6, 1, 2, 1, 6, 13, 0]) == Some(
                ValueView::Counter32(s.in_errs),
            )
            &&& table_answer(t, seq![1u32, 3, 6, 1, 2, 1, 6, 14, 0]) == Some(
                ValueView::Counter32(s.out_rsts),
            )
        }),
{
    let t = tcp_scalar_rows(s);
    let cols = seq![1u32, 2, 3, 4, 5, 6, 7, 8, 9, 10, 11, 12, 13, 14];
    assert forall|j: int| 0 <= j < 14 implies (#[trigger] t[j]).0[7] == cols[j] by {}
    assert(t[0].0 =~= seq![1u32, 3, 6, 1, 2, 1, 6, 1, 0]);
    last_cell_answers(t, 0);
    assert(t[1].0 =~= seq![1u32, 3, 6, 1, 2, 1, 6, 2, 0]);
    last_cell_answers(t, 1);
    assert(t[2].0 =~= seq![1u32, 3, 6, 1, 2, 1, 6, 3, 0]);
    last_cell_answers(t, 2);
    assert(t[3].0 =~= seq![1u32, 3, 6, 1, 2, 1, 6, 4, 0]);
    last_cell_answers(t, 3);
    assert(t[4].0 =~= seq![1u32, 3, 6, 1, 2, 1, 6, 5, 0]);
    last_cell_answers(t, 4);
    assert(t[5].0 =~= seq![1u32, 3, 6, 1, 2, 1, 6, 6, 0]);
    last_cell_answers(t, 5);
    assert(t[6].0 =~= seq![1u32, 3, 6, 1, 2, 1, 6, 7, 0]);
    last_cell_answers(t, 6);
    assert(t[7].0 =~= seq![1u32, 3, 6, 1, 2, 1, 6, 8, 0]);
    last_cell_answers(t, 7);
    assert(t[8].0 =~= seq![1u32, 3, 6, 1, 2, 1, 6, 9, 0]);
    last_cell_answers(t, 8);
    assert(t[9].0 =~= seq![1u32, 3, 6, 1, 2, 1, 6, 10, 0]);
    last_cell_answers(t, 9);
    assert(t[10].0 =~= seq![1u32, 3, 6, 1, 2, 1, 6, 11, 0]);
    last_cell_answers(t, 10);
    assert(t[11].0 =~= seq![1u32, 3, 6, 1, 2, 1, 6, 12, 0]);
    last_cell_answers(t, 11);
    assert(t[12].0 =~= seq![1u32, 3, 6, 1, 2, 1, 6, 13, 0]);
    last_cell_answers(t, 12);
    assert(t[13].0 =~= seq![1u32, 3, 6, 1, 2, 1, 6, 14, 0]);
    last_cell_answers(t, 13);
}

/// The UDP scalars are each counter under its own arc.
pub proof fn udp_scalars_are_listed(s: UdpScalars)
    ensures
        ({
            let t = udp_scalar_rows(s);
            &&& table_answer(t, seq![1u32, 3, 6, 1, 2, 1, 7, 1, 0]) == Some(
                ValueView::Counter32(s.in_datagrams),
            )
            &&& table_answer(t, seq![1u32, 3, 6, 1, 2, 1, 7, 2, 0]) == Some(
                ValueView::Counter32(s.no_ports),
            )
            &&& table_answer(t, seq![1u32, 3, 6, 1, 2, 1, 7, 3, 0]) == Some(
                ValueView::Counter32(s.in_errors),
            )
            &&& table_answer(t, seq![1u32, 3, 6, 1, 2, 1, 7, 4, 0]) == Some(
                ValueView::Counter32(s.out_datagrams),
            )
        }),
{
    let t = udp_scalar_rows(s);
    let cols = seq![1u32, 2, 3, 4];
    assert forall|j: int| 0 <= j < 4 implies (#[trigger] t[j]).0[7] == cols[j] by {}
    assert(t[0].0 =~= seq![1u32, 3, 6, 1, 2, 1, 7, 1, 0]);
    last_cell_answers(t, 0);
    assert(t[1].0 =~= seq![1u32, 3, 6, 1, 2, 1, 7, 2, 0]);
    last_cell_answers(t, 1);
    assert(t[2].0 =~= seq![1u32, 3, 6, 1, 2, 1, 7, 3, 0]);
    last_cell_answers(t, 2);
    assert(t[3].0 =~= seq![1u32, 3, 6, 1, 2, 1, 7, 4, 0]);
    last_cell_answers(t, 3);
}

/// The ICMP scalars are each counter under its own arc, those of what came in first.
#[verifier::rlimit(40)]
pub proof fn icmp_scalars_are_listed(s: IcmpScalars)
    ensures
        ({
            let t = icmp_scalar_rows(s);
            &&& table_answer(t, seq![1u32, 3, 6, 1, 2, 1, 5, 1, 0]) == Some(
                ValueView::Counter32(s.in_msgs),
            )
            &&& table_answer(t, seq![1u32, 3, 6, 1, 2, 1, 5, 2, 0]) == Some(
                ValueView::Counter32(s.in_errors),
            )
            &&& table_answer(t, seq![1u32, 3, 6, 1, 2, 1, 5, 3, 0]) == Some(
                ValueView::Counter32(s.in_dest_unreachs),
            )
            &&& table_answer(t, seq![1u32, 3, 6, 1, 2, 1, 5, 4, 0]) == Some(
                ValueView::Counter32(s.in_time_excds),
            )
            &&& table_answer(t, seq![1u32, 3, 6, 1, 2, 1, 5, 5, 0]) == Some(
                ValueView::Counter32(s.in_parm_probs),
            )
            &&& table_answer(t, seq![1u32, 3, 6, 1, 2, 1, 5, 6, 0]) == Some(
                ValueView::Counter32(s.in_src_quenchs),
            )
            &&& table_answer(t, seq![1u32, 3, 6, 1, 2, 1, 5, 7, 0]) == Some(
                ValueView::Counter32(s.in_redirects),
            )
            &&& table_answer(t, seq![1u32, 3, 6, 1, 2, 1, 5, 8, 0]) == Some(
                ValueView::Counter32(s.in_echos),
            )
            &&& table_answer(t, seq![1u32, 3, 6, 1, 2, 1, 5, 9, 0]) == Some(
                ValueView::Counter32(s.in_echo_reps),
            )
            &&& table_answer(t, seq![1u32, 3, 6, 1, 2, 1, 5, 10, 0]) == Some(
                ValueView::Counter32(s.in_timestamps),
            )
            &&& table_answer(t, seq![1u32, 3, 6, 1, 2, 1, 5, 11, 0]) == Some(
                ValueView::Counter32(s.in_timestamp_reps),
            )
            &&& table_answer(t, seq![1u32, 3, 6, 1, 2, 1, 5, 12, 0]) == Some(
                ValueView::Counter32(s.in_addr_masks),
            )
            &&& table_answer(t, seq![1u32, 3, 6, 1, 2, 1, 5, 13, 0]) == Some(
                ValueView::Counter32(s.in_addr_mask_reps),
            )
            &&& table_answer(t, seq![1u32, 3, 6, 1, 2, 1, 5, 14, 0]) == Some(
                ValueView::Counter32(s.out_msgs),
            )
            &&& table_answer(t, seq![1u32, 3, 6, 1, 2, 1, 5, 15, 0]) == Some(
                ValueView::Counter32(s.out_errors),
            )
            &&& table_answer(t, seq![1u32, 3, 6, 1, 2, 1, 5, 16, 0]) == Some(
                ValueView::Counter32(s.out_dest_unreachs),
            )
            &&& table_answer(t, seq![1u32, 3, 6, 1, 2, 1, 5, 17, 0]) == Some(
                ValueView::Counter32(s.out_time_excds),
            )
            &&& table_answer(t, seq![1u32, 3, 6, 1, 2, 1, 5, 18, 0]) == Some(
                ValueView::Counter32(s.out_parm_probs),
            )
            &&& table_answer(t, seq![1u32, 3, 6, 1, 2, 1, 5, 19, 0]) == Some(
                ValueView::Counter32(s.out_src_quenchs),
            )
            &&& table_answer(t, seq![1u32, 3, 6, 1, 2, 1, 5, 20, 0]) == Some(
                ValueView::Counter32(s.out_redirects),
            )
            &&& table_answer(t, seq![1u32, 3, 6, 1, 2, 1, 5, 21, 0]) == Some(
                ValueView::Counter32(s.out_echos),
            )
            &&& table_answer(t, seq![1u32, 3, 6, 1, 2, 1, 5, 22, 0]) == Some(
                ValueView::Counter32(s.out_echo_reps),
            )
            &&& table_answer(t, seq![1u32, 3, 6, 1, 2, 1, 5, 23, 0]) == Some(
                ValueView::Counter32(s.out_timestamps),
            )
            &&& table_answer(t, seq![1u32, 3, 6, 1, 2, 1, 5, 24, 0]) == Some(
                ValueView::Counter32(s.out_timestamp_reps),
            )
            &&& table_answer(t, seq![1u32, 3, 6, 1, 2, 1, 5, 25, 0]) == Some(
                ValueView::Counter32(s.out_addr_masks),
            )
            &&& table_answer(t, seq![1u32, 3, 6, 1, 2, 1, 5, 26, 0]) == Some(
                ValueView::Counter32(s.out_addr_mask_reps),
            )
        }),
{
    let t = icmp_scalar_rows(s);
    let cols = seq![
        1u32,
        2,
        3,
        4,
        5,
        6,
        7,
        8,
        9,
        10,
        11,
        12,
        13,
        14,
        15,
        16,
        17,
        18,
        19,
        20,
        21,
        22,
        23,
        24,
        25,
        26,
    ];
    assert forall|j: int| 0 <= j < 26 implies (#[trigger] t[j]).0[7] == cols[j] by {}
    assert(t[0].0 =~= seq![1u32, 3, 6, 1, 2, 1, 5, 1, 0]);
    last_cell_answers(t, 0);
    assert(t[1].0 =~= seq![1u32, 3, 6, 1, 2, 1, 5, 2, 0]);
    last_cell_answers(t, 1);
    assert(t[2].0 =~= seq![1u32, 3, 6, 1, 2, 1, 5, 3, 0]);
    last_cell_answers(t, 2);
    assert(t[3].0 =~= seq![1u32, 3, 6, 1, 2, 1, 5, 4, 0]);
    last_cell_answers(t, 3);
    assert(t[4].0 =~= seq![1u32, 3, 6, 1, 2, 1, 5, 5, 0]);
    last_cell_answers(t, 4);
    assert(t[5].0 =~= seq![1u32, 3, 6, 1, 2, 1, 5, 6, 0]);
    last_cell_answers(t, 5);
    assert(t[6].0 =~= seq![1u32, 3, 6, 1, 2, 1, 5, 7, 0]);
    last_cell_answers(t, 6);
    assert(t[7].0 =~= seq![1u32, 3, 6, 1, 2, 1, 5, 8, 0]);
    last_cell_answers(t, 7);
    assert(t[8].0 =~= seq![1u32, 3, 6, 1, 2, 1, 5, 9, 0]);
    last_cell_answers(t, 8);
    assert(t[9].0 =~= seq![1u32, 3, 6, 1, 2, 1, 5, 10, 0]);
    last_cell_answers(t, 9);
    assert(t[10].0 =~= seq![1u32, 3, 6, 1, 2, 1, 5, 11, 0]);
    last_cell_answers(t, 10);
    assert(t[11].0 =~= seq![1u32, 3, 6, 1, 2, 1, 5, 12, 0]);
    last_cell_answers(t, 11);
    assert(t[12].0 =~= seq![1u32, 3, 6, 1, 2, 1, 5, 13, 0]);
    last_cell_answers(t, 12);
    assert(t[13].0 =~= seq![1u32, 3, 6, 1, 2, 1, 5, 14, 0]);
    last_cell_answers(t, 13);
    assert(t[14].0 =~= seq![1u32, 3, 6, 1, 2, 1, 5, 15, 0]);
    last_cell_answers(t, 14);
    assert(t[15].0 =~= seq![1u32, 3, 6, 1, 2, 1, 5, 16, 0]);
    last_cell_answers(t, 15);
    assert(t[16].0 =~= seq![1u32, 3, 6, 1, 2, 1, 5, 17, 0]);
    last_cell_answers(t, 16);
    assert(t[17].0 =~= seq![1u32, 3, 6, 1, 2, 1, 5, 18, 0]);
    last_cell_answers(t, 17);
    assert(t[18].0 =~= seq![1u32, 3, 6, 1, 2, 1, 5, 19, 0]);
    last_cell_answers(t, 18);
    assert(t[19].0 =~= seq![1u32, 3, 6, 1, 2, 1, 5, 20, 0]);
    last_cell_answers(t, 19);
    assert(t[20].0 =~= seq![1u32, 3, 6, 1, 2, 1, 5, 21, 0]);
    last_cell_answers(t, 20);
    assert(t[21].0 =~= seq![1u32, 3, 6, 1, 2, 1, 5, 22, 0]);
    last_cell_answers(t, 21);
    assert(t[22].0 =~= seq![1u32, 3, 6, 1, 2, 1, 5, 23, 0]);
    last_cell_answers(t, 22);
    assert(t[23].0 =~= seq![1u32, 3, 6, 1, 2, 1, 5, 24, 0]);
    last_cell_answers(t, 23);
    assert(t[24].0 =~= seq![1u32, 3, 6, 1, 2, 1, 5, 25, 0]);
    last_cell_answers(t, 24);
    assert(t[25].0 =~= seq![1u32, 3, 6, 1, 2, 1, 5, 26, 0]);
    last_cell_answers(t, 25);
}

/// The IP scalars are each parameter and counter under its own arc.
#[verifier::rlimit(40)]
pub proof fn ip_scalars_are_listed(s: IpScalars)
    ensures
        ({
            let t = ip_scalar_rows(s);
            &&& table_answer(t, seq![1u32, 3, 6, 1, 2, 1, 4, 1, 0]) == Some(
                ValueView::Integer(s.forwarding),
            )
            &&& table_answer(t, seq![1u32, 3, 6, 1, 2, 1, 4, 2, 0]) == Some(
                ValueView::Integer(s.default_ttl),
            )
            &&& table_answer(t, seq![1u32, 3, 6, 1, 2, 1, 4, 3, 0]) == Some(
                ValueView::Counter32(s.in_receives),
            )
            &&& table_answer(t, seq![1u32, 3, 6, 1, 2, 1, 4, 4, 0]) == Some(
                ValueView::Counter32(s.in_hdr_errors),
            )
            &&& table_answer(t, seq![1u32, 3, 6, 1, 2, 1, 4, 5, 0]) == Some(
                ValueView::Counter32(s.in_addr_errors),
            )
            &&& table_answer(t, seq![1u32, 3, 6, 1, 2, 1, 4, 6, 0]) == Some(
                ValueView::Counter32(s.forw_datagrams),
            )
            &&& table_answer(t, seq![1u32, 3, 6, 1, 2, 1, 4, 7, 0]) == Some(
                ValueView::Counter32(s.in_unknown_protos),
            )
            &&& table_answer(t, seq![1u32, 3, 6, 1, 2, 1, 4, 8, 0]) == Some(
                ValueView::Counter32(s.in_discards),
            )
            &&& table_answer(t, seq![1u32, 3, 6, 1, 2, 1, 4, 9, 0]) == Some(
                ValueView::Counter32(s.in_delivers),
            )
            &&& table_answer(t, seq![1u32, 3, 6, 1, 2, 1, 4, 10, 0]) == Some(
                ValueView::Counter32(s.out_requests),
            )
            &&& table_answer(t, seq![1u32, 3, 6, 1, 2, 1, 4, 11, 0]) == Some(
                ValueView::Counter32(s.out_discards),
            )
            &&& table_answer(t, seq![1u32, 3, 6, 1, 2, 1, 4, 12, 0]) == Some(
                ValueView::Counter32(s.out_no_routes),
            )
            &&& table_answer(t, seq![1u32, 3, 6, 1, 2, 1, 4, 13, 0]) == Some(
                ValueView::Integer(s.reasm_timeout),
            )
            &&& table_answer(t, seq![1u32, 3, 6, 1, 2, 1, 4, 14, 0]) == Some(
                ValueView::Counter32(s.reasm_reqds),
            )
            &&& table_answer(t, seq![1u32, 3, 6, 1, 2, 1, 4, 15, 0]) == Some(
                ValueView::Counter32(s.reasm_oks),
            )
            &&& table_answer(t, seq![1u32, 3, 6, 1, 2, 1, 4, 16, 0]) == Some(
                ValueView::Counter32(s.reasm_fails),
            )
            &&& table_answer(t, seq![1u32, 3, 6, 1, 2, 1, 4, 17, 0]) == Some(
                ValueView::Counter32(s.frag_oks),
            )
            &&& table_answer(t, seq![1u32, 3, 6, 1, 2, 1, 4, 18, 0]) == Some(
                ValueView::Counter32(s.frag_fails),
            )
            &&& table_answer(t, seq![1u32, 3, 6, 1, 2, 1, 4, 19, 0]) == Some(
                ValueView::Counter32(s.frag_creates),
            )
        }),
{
    let t = ip_scalar_rows(s);
    let cols = seq![1u32, 2, 3, 4, 5, 6, 7, 8, 9, 10, 11, 12, 13, 14, 15, 16, 17, 18, 19];
    assert forall|j: int| 0 <= j < 19 implies (#[trigger] t[j]).0[7] == cols[j] by {}
    assert(t[0].0 =~= seq![1u32, 3, 6, 1, 2, 1, 4, 1, 0]);
    last_cell_answers(t, 0);
    assert(t[1].0 =~= seq![1u32, 3, 6, 1, 2, 1, 4, 2, 0]);
    last_cell_answers(t, 1);
    assert(t[2].0 =~= seq![1u32, 3, 6, 1, 2, 1, 4, 3, 0]);
    last_cell_answers(t, 2);
    assert(t[3].0 =~= seq![1u32, 3, 6, 1, 2, 1, 4, 4, 0]);
    last_cell_answers(t, 3);
    assert(t[4].0 =~= seq![1u32, 3, 6, 1, 2, 1, 4, 5, 0]);
    last_cell_answers(t, 4);
    assert(t[5].0 =~= seq![1u32, 3, 6, 1, 2, 1, 4, 6, 0]);
    last_cell_answers(t, 5);
    assert(t[6].0 =~= seq![1u32, 3, 6, 1, 2, 1, 4, 7, 0]);
    last_cell_answers(t, 6);
    assert(t[7].0 =~= seq![1u32, 3, 6, 1, 2, 1, 4, 8, 0]);
    last_cell_answers(t, 7);
    assert(t[8].0 =~= seq![1u32, 3, 6, 1, 2, 1, 4, 9, 0]);
    last_cell_answers(t, 8);
    assert(t[9].0 =~= seq![1u32, 3, 6, 1, 2, 1, 4, 10, 0]);
    last_cell_answers(t, 9);
    assert(t[10].0 =~= seq![1u32, 3, 6, 1, 2, 1, 4, 11, 0]);
    last_cell_answers(t, 10);
    assert(t[11].0 =~= seq![1u32, 3, 6, 1, 2, 1, 4, 12, 0]);
    last_cell_answers(t, 11);
    assert(t[12].0 =~= seq![1u32, 3, 6, 1, 2, 1, 4, 13, 0]);
    last_cell_answers(t, 12);
    assert(t[13].0 =~= seq![1u32, 3, 6, 1, 2, 1, 4, 14, 0]);
    last_cell_answers(t, 13);
    assert(t[14].0 =~= seq![1u32, 3, 6, 1, 2, 1, 4, 15, 0]);
    last_cell_answers(t, 14);
    assert(t[15].0 =~= seq![1u32, 3, 6, 1, 2, 1, 4, 16, 0]);
    last_cell_answers(t, 15);
    assert(t[16].0 =~= seq![1u32, 3, 6, 1, 2, 1, 4, 17, 0]);
    last_cell_answers(t, 16);
    assert(t[17].0 =~= seq![1u32, 3, 6, 1, 2, 1, 4, 18, 0]);
    last_cell_answers(t, 17);
    assert(t[18].0 =~= seq![1u32, 3, 6, 1, 2, 1, 4, 19, 0]);
    last_cell_answers(t, 18);
}

/// The SCTP scalars are fixed: no protocol runs.
pub proof fn sctp_scalars_are_listed()
    ensures
        ({
            let t = sctp_rows();
            &&& table_answer(t, seq![1u32, 3, 6, 1, 2, 1, 105, 1, 0]) == Some(ValueView::Integer(1))
            &&& table_answer(t, seq![1u32, 3, 6, 1, 2, 1, 105, 2, 0]) == Some(ValueView::Integer(0))
            &&& table_answer(t, seq![1u32, 3, 6, 1, 2, 1, 105, 3, 0]) == Some(ValueView::Integer(0))
            &&& table_answer(t, seq![1u32, 3, 6, 1, 2, 1, 105, 4, 0]) == Some(ValueView::Integer(0))
            &&& table_answer(t, seq![1u32, 3, 6, 1, 2, 1, 105, 7, 0]) == Some(
                ValueView::Gauge32(0xffff_ffff),
            )
            &&& table_answer(t, seq![1u32, 3, 6, 1, 2, 1, 105, 9, 0]) == Some(ValueView::Integer(0))
            &&& table_answer(t, seq![1u32, 3, 6, 1, 2, 1, 105, 10, 0]) == Some(
                ValueView::Integer(0),
            )
        }),
{
    let t = sctp_rows();
    let cols = seq![1u32, 2, 3, 4, 7, 9, 10];
    assert forall|j: int| 0 <= j < 7 implies (#[trigger] t[j]).0[7] == cols[j] by {}
    assert(t[0].0 =~= seq![1u32, 3, 6, 1, 2, 1, 105, 1, 0]);
    last_cell_answers(t, 0);
    assert(t[1].0 =~= seq![1u32, 3, 6, 1, 2, 1, 105, 2, 0]);
    last_cell_answers(t, 1);
    assert(t[2].0 =~= seq![1u32, 3, 6, 1, 2, 1, 105, 3, 0]);
    last_cell_answers(t, 2);
    assert(t[3].0 =~= seq![1u32, 3, 6, 1, 2, 1, 105, 4, 0]);
    last_cell_answers(t, 3);
    assert(t[4].0 =~= seq![1u32, 3, 6, 1, 2, 1, 105, 7, 0]);
    last_cell_answers(t, 4);
    assert(t[5].0 =~= seq![1u32, 3, 6, 1, 2, 1, 105, 9, 0]);
    last_cell_answers(t, 5);
    assert(t[6].0 =~= seq![1u32, 3, 6, 1, 2, 1, 105, 10, 0]);
    last_cell_answers(t, 6);
}

/// Each statistic of the user-based security model is answered for under its own arc.
pub proof fn usm_statistics_are_listed(counts: Seq<u64>)
    ensures
        ({
            let t = usm_cells(counts);
            &&& table_answer(t, seq![1u32, 3, 6, 1, 6, 3, 15, 1, 1, 1, 0]) == Some(
                ValueView::Counter32(
                    (counts[UsmStat::UnsupportedSecLevels.slot()] as int % 0x1_0000_0000) as u32,
                ),
            )
            &&& table_answer(t, seq![1u32, 3, 6, 1, 6, 3, 15, 1, 1, 2, 0]) == Some(
                ValueView::Counter32(
                    (counts[UsmStat::NotInTimeWindows.slot()] as int % 0x1_0000_0000) as u32,
                ),
            )
            &&& table_answer(t, seq![1u32, 3, 6, 1, 6, 3, 15, 1, 1, 3, 0]) == Some(
                ValueView::Counter32(
                    (counts[UsmStat::UnknownUserNames.slot()] as int % 0x1_0000_0000) as u32,
                ),
            )
            &&& table_answer(t, seq![1u32, 3, 6, 1, 6, 3, 15, 1, 1, 4, 0]) == Some(
                ValueView::Counter32(
                    (counts[UsmStat::UnknownEngineIDs.slot()] as int % 0x1_0000_0000) as u32,
                ),
            )
            &&& table_answer(t, seq![1u32, 3, 6, 1, 6, 3, 15, 1, 1, 5, 0]) == Some(
                ValueView::Counter32(
                    (counts[UsmStat::WrongDigests.slot()] as int % 0x1_0000_0000) as u32,
                ),
            )
            &&& table_answer(t, seq![1u32, 3, 6, 1, 6, 3, 15, 1, 1, 6, 0]) == Some(
                ValueView::Counter32(
                    (counts[UsmStat::DecryptionErrors.slot()] as int % 0x1_0000_0000) as u32,
                ),
            )
        }),
{
    let t = usm_cells(counts);
    let cols = seq![1u32, 2, 3, 4, 5, 6];
    assert forall|j: int| 0 <= j < 6 implies (#[trigger] t[j]).0[9] == cols[j] by {}
    assert(t[0].0 =~= seq![1u32, 3, 6, 1, 6, 3, 15, 1, 1, 1, 0]);
    last_cell_answers(t, 0);
    assert(t[1].0 =~= seq![1u32, 3, 6, 1, 6, 3, 15, 1, 1, 2, 0]);
    last_cell_answers(t, 1);
    assert(t[2].0 =~= seq![1u32, 3, 6, 1, 6, 3, 15, 1, 1, 3, 0]);
    last_cell_answers(t, 2);
    assert(t[3].0 =~= seq![1u32, 3, 6, 1, 6, 3, 15, 1, 1, 4, 0]);
    last_cell_answers(t, 3);
    assert(t[4].0 =~= seq![1u32, 3, 6, 1, 6, 3, 15, 1, 1, 5, 0]);
    last_cell_answers(t, 4);
    assert(t[5].0 =~= seq![1u32, 3, 6, 1, 6, 3, 15, 1, 1, 6, 0]);
    last_cell_answers(t, 5);
}

/// Each statistic of the message dispatcher is answered for under its own arc.
pub proof fn dispatcher_statistics_are_listed(s: SnmpMpdStats)
    ensures
        ({
            let t = mpd_cells(s);
            &&& table_answer(t, seq![1u32, 3, 6, 1, 6, 3, 11, 2, 1, 1, 0]) == Some(
                ValueView::Counter32((s.unknown_security_models as int % 0x1_0000_0000) as u32),
            )
            &&& table_answer(t, seq![1u32, 3, 6, 1, 6, 3, 11, 2, 1, 2, 0]) == Some(
                ValueView::Counter32((s.invalid_msgs as int % 0x1_0000_0000) as u32),
            )
        }),
{
    let t = mpd_cells(s);
    let cols = seq![1u32, 2];
    assert forall|j: int| 0 <= j < 2 implies (#[trigger] t[j]).0[9] == cols[j] by {}
    assert(t[0].0 =~= seq![1u32, 3, 6, 1, 6, 3, 11, 2, 1, 1, 0]);
    last_cell_answers(t, 0);
    assert(t[1].0 =~= seq![1u32, 3, 6, 1, 6, 3, 11, 2, 1, 2, 0]);
    last_cell_answers(t, 1);
}

/// Each counter of the agent is answered for under its own arc; authentication traps are disabled.
#[verifier::rlimit(40)]
pub proof fn agent_counters_are_listed(counts: Seq<u64>)
    ensures
        ({
            let t = counter_cells(counts);
            &&& table_answer(t, seq![1u32, 3, 6, 1, 2, 1, 11, 1, 0]) == Some(
                ValueView::Counter32(
                    (counts[SnmpCounter::InPkgs.slot()] as int % 0x1_0000_0000) as u32,
                ),
            )
            &&& table_answer(t, seq![1u32, 3, 6, 1, 2, 1, 11, 2, 0]) == Some(
                ValueView::Counter32(
                    (counts[SnmpCounter::InBadVersions.slot()] as int % 0x1_0000_0000) as u32,
                ),
            )
            &&& table_answer(t, seq![1u32, 3, 6, 1, 2, 1, 11, 3, 0]) == Some(
                ValueView::Counter32(
                    (counts[SnmpCounter::InBadCommunityNames.slot()] as int % 0x1_0000_0000) as u32,
                ),
            )
            &&& table_answer(t, seq![1u32, 3, 6, 1, 2, 1, 11, 4, 0]) == Some(
                ValueView::Counter32(
                    (counts[SnmpCounter::InBadCommunityUses.slot()] as int % 0x1_0000_0000) as u32,
                ),
            )
            &&& table_answer(t, seq![1u32, 3, 6, 1, 2, 1, 11, 5, 0]) == Some(
                ValueView::Counter32(
                    (counts[SnmpCounter::InASNParseErrs.slot()] as int % 0x1_0000_0000) as u32,
                ),
            )
            &&& table_answer(t, seq![1u32, 3, 6, 1, 2, 1, 11, 6, 0]) == Some(
                ValueView::Counter32(
                    (counts[SnmpCounter::InBadTypes.slot()] as int % 0x1_0000_0000) as u32,
                ),
            )
            &&& table_answer(t, seq![1u32, 3, 6, 1, 2, 1, 11, 7, 0]) == Some(
                ValueView::Counter32(
                    (counts[SnmpCounter::InTooBigs.slot()] as int % 0x1_0000_0000) as u32,
                ),
            )
            &&& table_answer(t, seq![1u32, 3, 6, 1, 2, 1, 11, 8, 0]) == Some(
                ValueView::Counter32(
                    (counts[SnmpCounter::InNoSuchNames.slot()] as int % 0x1_0000_0000) as u32,
                ),
            )
            &&& table_answer(t, seq![1u32, 3, 6, 1, 2, 1, 11, 9, 0]) == Some(
                ValueView::Counter32(
                    (counts[SnmpCounter::InBadValues.slot()] as int % 0x1_0000_0000) as u32,
                ),
            )
            &&& table_answer(t, seq![1u32, 3, 6, 1, 2, 1, 11, 10, 0]) == Some(
                ValueView::Counter32(
                    (counts[SnmpCounter::InReadOnlys.slot()] as int % 0x1_0000_0000) as u32,
                ),
            )
            &&& table_answer(t, seq![1u32, 3, 6, 1, 2, 1, 11, 11, 0]) == Some(
                ValueView::Counter32(
                    (counts[SnmpCounter::InGenErrs.slot()] as int % 0x1_0000_0000) as u32,
                ),
            )
            &&& table_answer(t, seq![1u32, 3, 6, 1, 2, 1, 11, 12, 0]) == Some(
                ValueView::Counter32(
                    (counts[SnmpCounter::InTotalReqVars.slot()] as int % 0x1_0000_0000) as u32,
                ),
            )
            &&& table_answer(t, seq![1u32, 3, 6, 1, 2, 1, 11, 13, 0]) == Some(
                ValueView::Counter32(
                    (counts[SnmpCounter::InTotalSetVars.slot()] as int % 0x1_0000_0000) as u32,
                ),
            )
            &&& table_answer(t, seq![1u32, 3, 6, 1, 2, 1, 11, 14, 0]) == Some(
                ValueView::Counter32(
                    (counts[SnmpCounter::InGetRequests.slot()] as int % 0x1_0000_0000) as u32,
                ),
            )
            &&& table_answer(t, seq![1u32, 3, 6, 1, 2, 1, 11, 15, 0]) == Some(
                ValueView::Counter32(
                    (counts[SnmpCounter::InGetNexts.slot()] as int % 0x1_0000_0000) as u32,
                ),
            )
            &&& table_answer(t, seq![1u32, 3, 6, 1, 2, 1, 11, 16, 0]) == Some(
                ValueView::Counter32(
                    (counts[SnmpCounter::InSetRequests.slot()] as int % 0x1_0000_0000) as u32,
                ),
            )
            &&& table_answer(t, seq![1u32, 3, 6, 1, 2, 1, 11, 17, 0]) == Some(
                ValueView::Counter32(
                    (counts[SnmpCounter::InGetResponses.slot()] as int % 0x1_0000_0000) as u32,
                ),
            )
            &&& table_answer(t, seq![1u32, 3, 6, 1, 2, 1, 11, 18, 0]) == Some(
                ValueView::Counter32(
                    (counts[SnmpCounter::InTraps.slot()] as int % 0x1_0000_0000) as u32,
                ),
            )
            &&& table_answer(t, seq![1u32, 3, 6, 1, 2, 1, 11, 19, 0]) == Some(
                ValueView::Counter32(
                    (counts[SnmpCounter::OutPkts.slot()] as int % 0x1_0000_0000) as u32,
                ),
            )
            &&& table_answer(t, seq![1u32, 3, 6, 1, 2, 1, 11, 20, 0]) == Some(
                ValueView::Counter32(
                    (counts[SnmpCounter::OutTooBigs.slot()] as int % 0x1_0000_0000) as u32,
                ),
            )
            &&& table_answer(t, seq![1u32, 3, 6, 1, 2, 1, 11, 21, 0]) == Some(
                ValueView::Counter32(
                    (counts[SnmpCounter::OutNoSuchNames.slot()] as int % 0x1_0000_0000) as u32,
                ),
            )
            &&& table_answer(t, seq![1u32, 3, 6, 1, 2, 1, 11, 22, 0]) == Some(
                ValueView::Counter32(
                    (counts[SnmpCounter::OutBadValues.slot()] as int % 0x1_0000_0000) as u32,
                ),
            )
            &&& table_answer(t, seq![1u32, 3, 6, 1, 2, 1, 11, 23, 0]) == Some(
                ValueView::Counter32(
                    (counts[SnmpCounter::OutGenErrs.slot()] as int % 0x1_0000_0000) as u32,
                ),
            )
            &&& table_answer(t, seq![1u32, 3, 6, 1, 2, 1, 11, 24, 0]) == Some(
                ValueView::Counter32(
                    (counts[SnmpCounter::OutGetRequests.slot()] as int % 0x1_0000_0000) as u32,
                ),
            )
            &&& table_answer(t, seq![1u32, 3, 6, 1, 2, 1, 11, 25, 0]) == Some(
                ValueView::Counter32(
                    (counts[SnmpCounter::OutGetNexts.slot()] as int % 0x1_0000_0000) as u32,
                ),
            )
            &&& table_answer(t, seq![1u32, 3, 6, 1, 2, 1, 11, 26, 0]) == Some(
                ValueView::Counter32(
                    (counts[SnmpCounter::OutSetRequests.slot()] as int % 0x1_0000_0000) as u32,
                ),
            )
            &&& table_answer(t, seq![1u32, 3, 6, 1, 2, 1, 11, 27, 0]) == Some(
                ValueView::Counter32(
                    (counts[SnmpCounter::OutGetResponses.slot()] as int % 0x1_0000_0000) as u32,
                ),
            )
            &&& table_answer(t, seq![1u32, 3, 6, 1, 2, 1, 11, 28, 0]) == Some(
                ValueView::Counter32(
                    (counts[SnmpCounter::OutTraps.slot()] as int % 0x1_0000_0000) as u32,
                ),
            )
            &&& table_answer(t, seq![1u32, 3, 6, 1, 2, 1, 11, 29, 0]) == Some(ValueView::Integer(2))
            &&& table_answer(t, seq![1u32, 3, 6, 1, 2, 1, 11, 30, 0]) == Some(
                ValueView::Counter32(
                    (counts[SnmpCounter::SilentDrops.slot()] as int % 0x1_0000_0000) as u32,
                ),
            )
            &&& table_answer(t, seq![1u32, 3, 6, 1, 2, 1, 11, 31, 0]) == Some(
                ValueView::Counter32(
                    (counts[SnmpCounter::ProxyDrops.slot()] as int % 0x1_0000_0000) as u32,
                ),
            )
        }),
{
    let t = counter_cells(counts);
    let cols = seq![
        1u32,
        2,
        3,
        4,
        5,
        6,
        7,
        8,
        9,
        10,
        11,
        12,
        13,
        14,
        15,
        16,
        17,
        18,
        19,
        20,
        21,
        22,
        23,
        24,
        25,
        26,
        27,
        28,
        29,
        30,
        31,
    ];
    assert forall|j: int| 0 <= j < 31 implies (#[trigger] t[j]).0[7] == cols[j] by {}
    assert(t[0].0 =~= seq![1u32, 3, 6, 1, 2, 1, 11, 1, 0]);
    last_cell_answers(t, 0);
    assert(t[1].0 =~= seq![1u32, 3, 6, 1, 2, 1, 11, 2, 0]);
    last_cell_answers(t, 1);
    assert(t[2].0 =~= seq![1u32, 3, 6, 1, 2, 1, 11, 3, 0]);
    last_cell_answers(t, 2);
    assert(t[3].0 =~= seq![1u32, 3, 6, 1, 2, 1, 11, 4, 0]);
    last_cell_answers(t, 3);
    assert(t[4].0 =~= seq![1u32, 3, 6, 1, 2, 1, 11, 5, 0]);
    last_cell_answers(t, 4);
    assert(t[5].0 =~= seq![1u32, 3, 6, 1, 2, 1, 11, 6, 0]);
    last_cell_answers(t, 5);
    assert(t[6].0 =~= seq![1u32, 3, 6, 1, 2, 1, 11, 7, 0]);
    last_cell_answers(t, 6);
    assert(t[7].0 =~= seq![1u32, 3, 6, 1, 2, 1, 11, 8, 0]);
    last_cell_answers(t, 7);
    assert(t[8].0 =~= seq![1u32, 3, 6, 1, 2, 1, 11, 9, 0]);
    last_cell_answers(t, 8);
    assert(t[9].0 =~= seq![1u32, 3, 6, 1, 2, 1, 11, 10, 0]);
    last_cell_answers(t, 9);
    assert(t[10].0 =~= seq![1u32, 3, 6, 1, 2, 1, 11, 11, 0]);
    last_cell_answers(t, 10);
    assert(t[11].0 =~= seq![1u32, 3, 6, 1, 2, 1, 11, 12, 0]);
    last_cell_answers(t, 11);
    assert(t[12].0 =~= seq![1u32, 3, 6, 1, 2, 1, 11, 13, 0]);
    last_cell_answers(t, 12);
    assert(t[13].0 =~= seq![1u32, 3, 6, 1, 2, 1, 11, 14, 0]);
    last_cell_answers(t, 13);
    assert(t[14].0 =~= seq![1u32, 3, 6, 1, 2, 1, 11, 15, 0]);
    last_cell_answers(t, 14);
    assert(t[15].0 =~= seq![1u32, 3, 6, 1, 2, 1, 11, 16, 0]);
    last_cell_answers(t, 15);
    assert(t[16].0 =~= seq![1u32, 3, 6, 1, 2, 1, 11, 17, 0]);
    last_cell_answers(t, 16);
    assert(t[17].0 =~= seq![1u32, 3, 6, 1, 2, 1, 11, 18, 0]);
    last_cell_answers(t, 17);
    assert(t[18].0 =~= seq![1u32, 3, 6, 1, 2, 1, 11, 19, 0]);
    last_cell_answers(t, 18);
    assert(t[19].0 =~= seq![1u32, 3, 6, 1, 2, 1, 11, 20, 0]);
    last_cell_answers(t, 19);
    assert(t[20].0 =~= seq![1u32, 3, 6, 1, 2, 1, 11, 21, 0]);
    last_cell_answers(t, 20);
    assert(t[21].0 =~= seq![1u32, 3, 6, 1, 2, 1, 11, 22, 0]);
    last_cell_answers(t, 21);
    assert(t[22].0 =~= seq![1u32, 3, 6, 1, 2, 1, 11, 23, 0]);
    last_cell_answers(t, 22);
    assert(t[23].0 =~= seq![1u32, 3, 6, 1, 2, 1, 11, 24, 0]);
    last_cell_answers(t, 23);
    assert(t[24].0 =~= seq![1u32, 3, 6, 1, 2, 1, 11, 25, 0]);
    last_cell_answers(t, 24);
    assert(t[25].0 =~= seq![1u32, 3, 6, 1, 2, 1, 11, 26, 0]);
    last_cell_answers(t, 25);
    assert(t[26].0 =~= seq![1u32, 3, 6, 1, 2, 1, 11, 27, 0]);
    last_cell_answers(t, 26);
    assert(t[27].0 =~= seq![1u32, 3, 6, 1, 2, 1, 11, 28, 0]);
    last_cell_answers(t, 27);
    assert(t[28].0 =~= seq![1u32, 3, 6, 1, 2, 1, 11, 29, 0]);
    last_cell_answers(t, 28);
    assert(t[29].0 =~= seq![1u32, 3, 6, 1, 2, 1, 11, 30, 0]);
    last_cell_answers(t, 29);
    assert(t[30].0 =~= seq![1u32, 3, 6, 1, 2, 1, 11, 31, 0]);
    last_cell_answers(t, 30);
}

/// The sensors of each kind have a table of their own: temperatures, fans and voltages.
pub proof fn sensor_tables_stand_apart(s: SensorReadings, oid: Seq<u32>)
    requires
        oid.len() > 9,
    ensures
        oid[9] == 2 ==> table_answer(all_sensor_rows(s), oid) == table_answer(
            sensor_rows(2, s.temps@),
            oid,
        ),
        oid[9] == 3 ==> table_answer(all_sensor_rows(s), oid) == table_answer(
            sensor_rows(3, s.fans@),
            oid,
        ),
        oid[9] == 4 ==> table_answer(all_sensor_rows(s), oid) == table_answer(
            sensor_rows(4, s.voltages@),
            oid,
        ),
{
    let a = sensor_rows(2, s.temps@);
    let b = sensor_rows(3, s.fans@);
    let c = sensor_rows(4, s.voltages@);
    lemma_sensors_are_listed_under(2, s.temps@);
    lemma_sensors_are_listed_under(3, s.fans@);
    lemma_sensors_are_listed_under(4, s.voltages@);
    if oid[9] != 2 {
        other_arcs_are_not_answered(a, 9, 2, oid);
    }
    if oid[9] != 3 {
        other_arcs_are_not_answered(b, 9, 3, oid);
    }
    if oid[9] != 4 {
        other_arcs_are_not_answered(c, 9, 4, oid);
    }
    later_cells_answer_first(a, b, oid);
    later_cells_answer_first(a + b, c, oid);
}

/// The TCP group is the scalars of the statistics and the connections of the connection list,
/// either answered for as if it stood alone.
pub proof fn tcp_group_has_both(snmp: Seq<char>, tcp: Seq<char>, oid: Seq<u32>)
    requires
        oid.len() > 7,
    ensures
        oid[7] == 13 && oid.len() > 9 ==> table_answer(tcp_group(snmp, tcp), oid) == table_answer(
            all_rows(tcp_conns_of(below_heading(tcp))),
            oid,
        ),
        oid.len() == 9 ==> table_answer(tcp_group(snmp, tcp), oid) == table_answer(
            tcp_scalar_rows(tcp_scalars_of(snmp)),
            oid,
        ),
{
    let a = tcp_scalar_rows(tcp_scalars_of(snmp));
    let conns = tcp_conns_of(below_heading(tcp));
    let b = all_rows(conns);
    later_cells_answer_first(a, b, oid);
    if oid.len() > 9 {
        assert forall|k: int| 0 <= k < a.len() implies (#[trigger] a[k]).0 != oid by {
            assert(a[k].0.len() == 9);
        }
        tables_answer_for_their_cells(a, oid);
    } else if oid.len() == 9 {
        lemma_connections_are_long(conns);
        tables_answer_for_their_cells(b, oid);
    }
}

proof fn lemma_connections_are_long(conns: Seq<TcpConn>)
    ensures
        forall|k: int|
            0 <= k < all_rows(conns).len() ==> (#[trigger] all_rows(conns)[k]).0.len() > 9,
    decreases conns.len(),
{
    if conns.len() > 0 {
        let t = conns.drop_last();
        lemma_connections_are_long(t);
        let s = all_rows(conns);
        let row = conns.last().row();
        assert(s == all_rows(t) + row);
        assert forall|k: int| 0 <= k < s.len() implies (#[trigger] s[k]).0.len() > 9 by {
            if k < all_rows(t).len() {
                assert(s[k] == all_rows(t)[k]);
            } else {
                assert(s[k] == row[k - all_rows(t).len()]);
            }
        }
    }
}

proof fn lemma_listeners_are_long(us: Seq<UdpEntry>)
    ensures
        forall|k: int| 0 <= k < all_rows(us).len() ==> (#[trigger] all_rows(us)[k]).0.len() > 9,
    decreases us.len(),
{
    if us.len() > 0 {
        let t = us.drop_last();
        lemma_listeners_are_long(t);
        let s = all_rows(us);
        let row = us.last().row();
        assert(s == all_rows(t) + row);
        assert forall|k: int| 0 <= k < s.len() implies (#[trigger] s[k]).0.len() > 9 by {
            if k < all_rows(t).len() {
                assert(s[k] == all_rows(t)[k]);
            } else {
                assert(s[k] == row[k - all_rows(t).len()]);
            }
        }
    }
}

/// The UDP group is the scalars of the statistics and the listeners of the listener list, either
/// answered for as if it stood alone.
pub proof fn udp_group_has_both(snmp: Seq<char>, udp: Seq<char>, oid: Seq<u32>)
    ensures
        oid.len() > 9 ==> table_answer(udp_group(snmp, udp), oid) == table_answer(
            all_rows(udp_entries_of(below_heading(udp))),
            oid,
        ),
        oid.len() == 9 ==> table_answer(udp_group(snmp, udp), oid) == table_answer(
            udp_scalar_rows(udp_scalars_of(snmp)),
            oid,
        ),
{
    let a = udp_scalar_rows(udp_scalars_of(snmp));
    let us = udp_entries_of(below_heading(udp));
    let b = all_rows(us);
    later_cells_answer_first(a, b, oid);
    if oid.len() > 9 {
        assert forall|k: int| 0 <= k < a.len() implies (#[trigger] a[k]).0 != oid by {
            assert(a[k].0.len() == 9);
        }
        tables_answer_for_their_cells(a, oid);
    } else if oid.len() == 9 {
        lemma_listeners_are_long(us);
        tables_answer_for_their_cells(b, oid);
    }
}

/// The IP group is the scalars of the statistics and the neighbours of the neighbour list, either
/// answered for as if it stood alone.
pub proof fn ip_group_has_both(snmp: Seq<char>, arp: Seq<char>, oid: Seq<u32>)
    requires
        oid.len() > 7,
    ensures
        oid[7] == 22 ==> table_answer(ip_group(snmp, arp), oid) == table_answer(
            net_to_media_rows(arp_entries_of(arp)),
            oid,
        ),
        oid[7] != 22 ==> table_answer(ip_group(snmp, arp), oid) == table_answer(
            ip_scalar_rows(ip_scalars_of(snmp)),
            oid,
        ),
{
    let a = ip_scalar_rows(ip_scalars_of(snmp));
    let b = net_to_media_rows(arp_entries_of(arp));
    lemma_neighbours_are_listed_under(arp_entries_of(arp));
    later_cells_answer_first(a, b, oid);
    if oid[7] != 22 {
        other_arcs_are_not_answered(b, 7, 22, oid);
    } else {
        assert forall|k: int| 0 <= k < a.len() implies (#[trigger] a[k]).0 != oid by {
            assert(a[k].0[7] <= 19);
        }
        tables_answer_for_their_cells(a, oid);
    }
}

proof fn lemma_lines_with(ls: Seq<Seq<char>>, prefix: Seq<char>, i: int, j: int, m: int)
    requires
        0 <= i < j < ls.len(),
        starts_with(ls[i], prefix),
        starts_with(ls[j], prefix),
        forall|k: int| 0 <= k < j && k != i ==> !starts_with(#[trigger] ls[k], prefix),
        0 <= m <= ls.len(),
    ensures
        m <= i ==> lines_with(ls.take(m), prefix) == Seq::<Seq<char>>::empty(),
        i < m <= j ==> lines_with(ls.take(m), prefix) == seq![ls[i]],
        m > j ==> lines_with(ls.take(m), prefix).len() >= 2 && lines_with(ls.take(m), prefix)[0]
            == ls[i] && lines_with(ls.take(m), prefix)[1] == ls[j],
    decreases m,
{
    if m > 0 {
        lemma_lines_with(ls, prefix, i, j, m - 1);
        assert(ls.take(m).drop_last() =~= ls.take(m - 1));
        assert(ls.take(m).last() == ls[m - 1]);
        if m - 1 == i {
            assert(Seq::<Seq<char>>::empty().push(ls[i]) =~= seq![ls[i]]);
        }
    }
}

/// Of the lines that begin with the name of a protocol the first has the names of the columns, and
/// the second their values.
pub proof fn columns_are_the_first_two_lines(text: Seq<char>, prefix: Seq<char>, i: int, j: int)
    requires
        0 <= i < j < lines(text).len(),
        starts_with(lines(text)[i], prefix),
        starts_with(lines(text)[j], prefix),
        forall|k: int| 0 <= k < j && k != i ==> !starts_with(#[trigger] lines(text)[k], prefix),
    ensures
        columns_of(text, prefix) == Some(
            ColumnsView {
                names: words(lines(text)[i].skip(prefix.len() as int)),
                values: words(lines(text)[j].skip(prefix.len() as int)),
            },
        ),
{
    let ls = lines(text);
    lemma_lines_with(ls, prefix, i, j, ls.len() as int);
    assert(ls.take(ls.len() as int) =~= ls);
}

proof fn lemma_value_below(c: ColumnsView, name: Seq<char>, fold: bool, k: int, n: nat)
    requires
        0 <= k < n <= c.names.len(),
        n <= c.values.len(),
        c.names[k] == name || (fold && lowered(c.names[k]) == lowered(name)),
        forall|j: int|
            k < j < n ==> #[trigger] c.names[j] != name && (fold ==> lowered(c.names[j]) != lowered(
                name,
            )),
    ensures
        value_below(c, name, fold, n) == Some(c.values[k]),
    decreases n,
{
    if k < n - 1 {
        assert(c.names[n - 1] != name);
        lemma_value_below(c, name, fold, k, (n - 1) as nat);
    }
}

/// A counter is the number below its name; of several columns of the name the last counts.
pub proof fn counter_is_below_its_name(
    c: ColumnsView,
    name: Seq<char>,
    fold: bool,
    k: int,
    n: nat,
)
    requires
        0 <= k < c.names.len(),
        k < c.values.len(),
        c.names[k] == name || (fold && lowered(c.names[k]) == lowered(name)),
        c.values[k] == decimal(n),
        n <= u32::MAX,
        forall|j: int|
            k < j < c.names.len() ==> #[trigger] c.names[j] != name && (fold ==> lowered(c.names[j])
                != lowered(name)),
    ensures
        counter_of(c, name, fold) == n,
{
    lemma_value_below(c, name, fold, k, pairs(c));
    decimal_reads_back(n, u32::MAX as nat);
}

/// A number is the one below its name; of several columns of the name the last counts.
pub proof fn number_is_below_its_name(c: ColumnsView, name: Seq<char>, k: int, n: nat)
    requires
        0 <= k < c.names.len(),
        k < c.values.len(),
        c.names[k] == name,
        c.values[k] == decimal(n),
        n <= i64::MAX,
        forall|j: int| k < j < c.names.len() ==> #[trigger] c.names[j] != name,
    ensures
        number_of(c, name) == n,
{
    lemma_value_below(c, name, false, k, pairs(c));
    minus_negates(n, i64::MIN as int, i64::MAX as int);
}

/// An endpoint is eight hexadecimal digits, a colon and a port in hexadecimal digits. The digits
/// stand for the address with its first octet in the lowest place.
#[verifier::rlimit(40)]
pub proof fn endpoints_are_low_octet_first(a: Seq<char>, p: Seq<char>, n: nat, port: nat)
    requires
        is_tight(a),
        is_tight(p),
        lacks(a, ':'),
        a.len() == 8,
        unsigned_value(a, 16, u32::MAX as nat) == Some(n),
        unsigned_value(p, 16, u16::MAX as nat) == Some(port),
    ensures
        endpoint_of(a + seq![':'] + p) matches Some((ip, q)) && q == port && n == ip.a + 256 * ip.b
            + 65536 * ip.c + 16777216 * ip.d,
        endpoint_of(a) is None,
{
    let e = Seq::<char>::empty();
    let s = a + seq![':'] + p;
    separators_end_pieces(a, ':', p);
    lemma_colon(a, p);
    assert(s.take(8) =~= a);
    assert(s.skip(9) =~= p);
    trimming_takes_the_white_space(e, a, e);
    trimming_takes_the_white_space(e, p, e);
    assert(e + a + e =~= a);
    assert(e + p + e =~= p);
    assert(unsigned_value(a, 16, u32::MAX as nat) matches Some(v) ==> v <= u32::MAX);
    let w = n as u32;
    assert(w % 256 + 256 * (w / 256 % 256) + 65536 * (w / 65536 % 256) + 16777216 * (w / 16777216)
        == w);
}

proof fn lemma_colon(a: Seq<char>, p: Seq<char>)
    requires
        lacks(a, ':'),
    ensures
        find_char(a + seq![':'] + p, ':') == a.len(),
        find_char(a, ':') == a.len(),
{
    let s = a + seq![':'] + p;
    lemma_find_char(s, ':');
    lemma_find_char(a, ':');
    let n = find_char(s, ':') as int;
    if n < a.len() {
        assert(s[n] == a[n]);
    }
    if n > a.len() {
        assert(s[a.len() as int] == ':');
    }
    let m = find_char(a, ':') as int;
    if m < a.len() {
        assert(a[m] == ':');
    }
}

/// A line of the connection list has the local end second, the remote end third and the state
/// fourth. Lines of fewer words, or with an end that cannot be read, are left out.
pub proof fn connection_lines_have_two_ends(ls: Seq<Seq<char>>, line: Seq<char>)
    ensures
        ({
            let w = words(line);
            let local = endpoint_of(w[1]);
            let remote = endpoint_of(w[2]);
            let before = tcp_conns_of(ls);
            let after = tcp_conns_of(ls.push(line));
            &&& w.len() >= 4 && local is Some && remote is Some ==> after.len() == before.len() + 1
                && after.drop_last() == before && after.last().local_addr == (local->0).0
                && after.last().local_port == (local->0).1 && after.last().rem_addr == (remote->0).0
                && after.last().rem_port == (remote->0).1
            &&& w.len() < 4 || local is None || remote is None ==> after == before
        }),
{
    let before = tcp_conns_of(ls);
    let after = tcp_conns_of(ls.push(line));
    assert(ls.push(line).drop_last() =~= ls);
    assert(ls.push(line).last() == line);
    if let Some(x) = tcp_line(line) {
        assert(before.push(x).drop_last() =~= before);
    }
}

/// The kernel's state numbers stand for the states of `tcpConnState`.
#[verifier::rlimit(40)]
pub proof fn connection_states_are_translated(line: Seq<char>)
    ensures
        ({
            let s = (tcp_line(line)->0).state;
            let w = words(line);
            tcp_line(line) is Some ==> {
                &&& w[3] == "01"@ ==> s == 5
                &&& w[3] == "02"@ ==> s == 3
                &&& w[3] == "03"@ ==> s == 4
                &&& w[3] == "04"@ ==> s == 6
                &&& w[3] == "05"@ ==> s == 7
                &&& w[3] == "06"@ ==> s == 11
                &&& w[3] == "07"@ ==> s == 1
                &&& w[3] == "08"@ ==> s == 8
                &&& w[3] == "09"@ ==> s == 9
                &&& w[3] == "0A"@ ==> s == 2
                &&& w[3] == "0B"@ ==> s == 10
            }
        }),
{
    reveal_strlit("01");
    reveal_strlit("02");
    reveal_strlit("03");
    reveal_strlit("04");
    reveal_strlit("05");
    reveal_strlit("06");
    reveal_strlit("07");
    reveal_strlit("08");
    reveal_strlit("09");
    reveal_strlit("0A");
    reveal_strlit("0B");
    let w = words(line)[3];
    assert("01"@[1] == '1' && "02"@[1] == '2' && "03"@[1] == '3' && "04"@[1] == '4' && "05"@[1]
        == '5' && "06"@[1] == '6' && "07"@[1] == '7' && "08"@[1] == '8' && "09"@[1] == '9'
        && "0A"@[1] == 'A' && "0B"@[1] == 'B');
    if w.len() == 2 && w[0] == '0' && '0' <= w[1] <= 'B' {
        let e = Seq::<char>::empty();
        trimming_takes_the_white_space(e, w, e);
        assert(e + w + e =~= w);
    }
}

/// A line of the listener list has the local end second.
pub proof fn listener_lines_have_one_end(ls: Seq<Seq<char>>, line: Seq<char>)
    ensures
        ({
            let w = words(line);
            let local = endpoint_of(w[1]);
            let before = udp_entries_of(ls);
            let after = udp_entries_of(ls.push(line));
            &&& w.len() >= 2 && local is Some ==> after.len() == before.len() + 1
                && after.drop_last() == before && after.last().local_addr == (local->0).0
                && after.last().local_port == (local->0).1
            &&& w.len() < 2 || local is None ==> after == before
        }),
{
    let before = udp_entries_of(ls);
    assert(ls.push(line).drop_last() =~= ls);
    assert(ls.push(line).last() == line);
    if let Some(x) = udp_line(line) {
        assert(before.push(x).drop_last() =~= before);
    }
}

proof fn lemma_second_bit(n: nat)
    ensures
        (n / 2) % 2 == 1 <==> n % 4 >= 2,
{
}

proof fn lemma_without_0x(s: Seq<char>)
    requires
        s.len() < 2 || s[0] != '0' || s[1] != 'x',
    ensures
        without_0x(s) == s,
        without_0x(seq!['0', 'x'] + s) == s,
{
    let t = seq!['0', 'x'] + s;
    assert(t[0] == '0' && t[1] == 'x');
    assert(t.skip(2) =~= s);
    assert(without_0x(t) == without_0x(t.skip(2)));
}

/// Flags in hexadecimal digits, with `0x` before them or not, are tested for their second bit.
pub proof fn second_bit_is_tested(s: Seq<char>, n: nat)
    requires
        s.len() < 2 || s[0] != '0' || s[1] != 'x',
        unsigned_value(s, 16, u32::MAX as nat) == Some(n),
    ensures
        has_second_bit(s) <==> n % 4 >= 2,
        has_second_bit(seq!['0', 'x'] + s) <==> n % 4 >= 2,
{
    lemma_without_0x(s);
    lemma_second_bit(n);
}

/// A line of the neighbour list has the address first, the flags third, the hardware address fourth
/// and the device sixth. The address is static where the flags have the second bit.
pub proof fn neighbour_lines_have_both_addresses(line: Seq<char>, ip: Ipv4Addr)
    requires
        words(line).len() >= 6,
        words(line)[0] == ipv4_text(ip),
    ensures
        ({
            let w = words(line);
            let mac = mac_of(w[3]);
            let good = mac.len() == 6 && exists|i: int| 0 <= i < 6 && #[trigger] mac[i] != 0;
            &&& arp_line(line) is Some <==> good
            &&& good ==> {
                let r = arp_line(line)->0;
                &&& r.net_address == ip
                &&& r.phys_address == mac
                &&& r.device == w[5]
                &&& r.media_type == (if has_second_bit(w[2]) {
                    4i64
                } else {
                    3
                })
            }
        }),
{
    ipv4_text_reads_back(ip);
}

/// A hardware address is octets in hexadecimal digits with colons between them. One octet that
/// cannot be read makes the strict reading empty, and is left out by the other.
pub proof fn hardware_addresses_are_octets(parts: Seq<Seq<char>>, p: Seq<char>, n: nat)
    ensures
        unsigned_value(p, 16, 255) == Some(n) ==> mac_octets(parts.push(p)) == mac_octets(
            parts,
        ).push(n as u8),
        unsigned_value(p, 16, 255) is None ==> mac_octets(parts.push(p)) == mac_octets(parts),
        unsigned_value(p, 16, 255) == Some(n) && strict_octets(parts) is Some ==> strict_octets(
            parts.push(p),
        ) == Some((strict_octets(parts)->0).push(n as u8)),
        unsigned_value(p, 16, 255) is None || strict_octets(parts) is None ==> strict_octets(
            parts.push(p),
        ) is None,
        strict_octets(Seq::empty()) == Some(Seq::<u8>::empty()),
        mac_octets(Seq::empty()) == Seq::<u8>::empty(),
{
    assert(parts.push(p).drop_last() =~= parts);
}

/// A line of the route list has the device first, then the destination, the next hop, the flags
/// and, at the seventh and eighth place, the metric and the mask.
pub proof fn route_lines_are_read(w: Seq<Seq<char>>, index: i64, metric: nat)
    requires
        w.len() >= 8,
        metric <= i64::MAX,
    ensures
        ({
            let dest = hex_ipv4(w[1]);
            let hop = hex_ipv4(w[2]);
            let mask = hex_ipv4(w[7]);
            let good = dest is Some && hop is Some && mask is Some;
            &&& route_line(w, index) is Some <==> good
            &&& good ==> {
                let r = route_line(w, index)->0;
                &&& r.dest == dest->0
                &&& r.next_hop == hop->0
                &&& r.mask == mask->0
                &&& r.if_index == index
                &&& w[6] == decimal(metric) ==> r.metric1 == metric
                &&& r.metric2 == -1 && r.metric3 == -1 && r.metric4 == -1
                &&& r.route_type == (if has_second_bit(w[3]) {
                    4i64
                } else {
                    3
                })
                &&& r.route_proto == (if w[0] == "lo"@ {
                    2i64
                } else {
                    1
                })
            }
        }),
{
    minus_negates(metric, i64::MIN as int, i64::MAX as int);
}

/// Routes are numbered by their devices, from one, in the order in which the devices first appear.
pub proof fn routes_share_their_devices_number(ls: Seq<Seq<char>>, line: Seq<char>, k: int)
    requires
        route_line(words(line), 0) is Some,
    ensures
        ({
            let name = words(line)[0];
            let known = route_devices(ls);
            let after = routes_of(ls.push(line));
            &&& after.len() == routes_of(ls).len() + 1
            &&& after.drop_last() == routes_of(ls)
            &&& known.len() < i64::MAX && 0 <= k < known.len() && known[k] == name && (forall|
                j: int,
            |
                0 <= j < k ==> #[trigger] known[j] != name) ==> after.last().if_index == k + 1
                && route_devices(ls.push(line)) == known
            &&& known.len() < i64::MAX && !known.contains(name) ==> after.last().if_index
                == known.len() + 1 && route_devices(ls.push(line)) == known.push(name)
        }),
{
    let name = words(line)[0];
    let known = route_devices(ls);
    assert(ls.push(line).drop_last() =~= ls);
    assert(ls.push(line).last() == line);
    let index = (device_at(known, name) + 1) as i64;
    assert(route_line(words(line), index) is Some);
    let r = route_line(words(line), index)->0;
    assert(routes_of(ls).push(r).drop_last() =~= routes_of(ls));
    lemma_device_at(known, name);
    if 0 <= k < known.len() && known[k] == name {
        let d = device_at(known, name) as int;
        if d < known.len() {
            assert(known[d] == name);
        }
    }
}

proof fn lemma_device_at(devices: Seq<Seq<char>>, name: Seq<char>)
    ensures
        device_at(devices, name) <= devices.len(),
        device_at(devices, name) < devices.len() ==> devices[device_at(devices, name) as int]
            == name,
        forall|j: int| 0 <= j < device_at(devices, name) ==> #[trigger] devices[j] != name,
    decreases devices.len(),
{
    if devices.len() > 0 && devices[0] != name {
        let t = devices.drop_first();
        lemma_device_at(t, name);
        assert forall|j: int| 0 <= j < device_at(devices, name) implies #[trigger] devices[j]
            != name by {
            if j > 0 {
                assert(t[j - 1] == devices[j]);
            }
        }
    }
}

/// Interfaces with the names that Ethernet interfaces get are listed, by their place among all.
pub proof fn ethernets_go_by_name(ls: Seq<Seq<char>>, line: Seq<char>, rest: Seq<char>)
    requires
        ls.len() < u32::MAX,
    ensures
        ({
            let name = interface_name(line);
            let more = ethernet_rows(ls).push(Dot3StatsRow { if_index: (ls.len() + 1) as u32 });
            &&& name == "eth"@ + rest ==> ethernet_rows(ls.push(line)) == more
            &&& name == "enp"@ + rest ==> ethernet_rows(ls.push(line)) == more
            &&& name == "enx"@ + rest ==> ethernet_rows(ls.push(line)) == more
            &&& name == "ens"@ + rest ==> ethernet_rows(ls.push(line)) == more
            &&& name.len() > 0 && name[0] != 'e' ==> ethernet_rows(ls.push(line)) == ethernet_rows(
                ls,
            )
        }),
{
    reveal_strlit("eth");
    reveal_strlit("enp");
    reveal_strlit("enx");
    reveal_strlit("ens");
    assert(ls.push(line).drop_last() =~= ls);
    assert(ls.push(line).last() == line);
    assert(("eth"@ + rest).take(3) =~= "eth"@);
    assert(("enp"@ + rest).take(3) =~= "enp"@);
    assert(("enx"@ + rest).take(3) =~= "enx"@);
    assert(("ens"@ + rest).take(3) =~= "ens"@);
    let name = interface_name(line);
    assert(name.len() >= 3 ==> name.take(3)[0] == name[0]);
}

/// A TCP counter is the number below its name, whatever the case of the name and wherever its
/// column stands.
pub proof fn tcp_counters_go_by_name(text: Seq<char>, c: ColumnsView, k: int, n: nat)
    requires
        columns_of(text, "Tcp:"@) == Some(c),
        0 <= k < c.names.len(),
        k < c.values.len(),
        c.values[k] == decimal(n),
        n <= u32::MAX,
        forall|j: int|
            k < j < c.names.len() ==> lowered(#[trigger] c.names[j]) != lowered(c.names[k]),
    ensures
        ({
            let s = tcp_scalars_of(text);
            let name = c.names[k];
            &&& lowered(name) == lowered("ActiveOpens"@) ==> s.active_opens == n
            &&& lowered(name) == lowered("PassiveOpens"@) ==> s.passive_opens == n
            &&& lowered(name) == lowered("AttemptFails"@) ==> s.attempt_fails == n
            &&& lowered(name) == lowered("EstabResets"@) ==> s.estab_resets == n
            &&& lowered(name) == lowered("CurrEstab"@) ==> s.curr_estab == n
            &&& lowered(name) == lowered("InSegs"@) ==> s.in_segs == n
            &&& lowered(name) == lowered("OutSegs"@) ==> s.out_segs == n
            &&& lowered(name) == lowered("RetransSegs"@) ==> s.retrans_segs == n
            &&& lowered(name) == lowered("InErrs"@) ==> s.in_errs == n
            &&& lowered(name) == lowered("OutRsts"@) ==> s.out_rsts == n
        }),
{
    if lowered(c.names[k]) == lowered("ActiveOpens"@) {
        counter_is_below_its_name(c, "ActiveOpens"@, true, k, n);
    }
    if lowered(c.names[k]) == lowered("PassiveOpens"@) {
        counter_is_below_its_name(c, "PassiveOpens"@, true, k, n);
    }
    if lowered(c.names[k]) == lowered("AttemptFails"@) {
        counter_is_below_its_name(c, "AttemptFails"@, true, k, n);
    }
    if lowered(c.names[k]) == lowered("EstabResets"@) {
        counter_is_below_its_name(c, "EstabResets"@, true, k, n);
    }
    if lowered(c.names[k]) == lowered("CurrEstab"@) {
        counter_is_below_its_name(c, "CurrEstab"@, true, k, n);
    }
    if lowered(c.names[k]) == lowered("InSegs"@) {
        counter_is_below_its_name(c, "InSegs"@, true, k, n);
    }
    if lowered(c.names[k]) == lowered("OutSegs"@) {
        counter_is_below_its_name(c, "OutSegs"@, true, k, n);
    }
    if lowered(c.names[k]) == lowered("RetransSegs"@) {
        counter_is_below_its_name(c, "RetransSegs"@, true, k, n);
    }
    if lowered(c.names[k]) == lowered("InErrs"@) {
        counter_is_below_its_name(c, "InErrs"@, true, k, n);
    }
    if lowered(c.names[k]) == lowered("OutRsts"@) {
        counter_is_below_its_name(c, "OutRsts"@, true, k, n);
    }
}

/// A UDP counter is the number below its name, wherever its column stands.
pub proof fn udp_counters_go_by_name(text: Seq<char>, c: ColumnsView, k: int, n: nat)
    requires
        columns_of(text, "Udp:"@) == Some(c),
        0 <= k < c.names.len(),
        k < c.values.len(),
        c.values[k] == decimal(n),
        n <= u32::MAX,
        forall|j: int|
            k < j < c.names.len() ==> #[trigger] c.names[j] != c.names[k],
    ensures
        ({
            let s = udp_scalars_of(text);
            let name = c.names[k];
            &&& name == "InDatagrams"@ ==> s.in_datagrams == n
            &&& name == "NoPorts"@ ==> s.no_ports == n
            &&& name == "InErrors"@ ==> s.in_errors == n
            &&& name == "OutDatagrams"@ ==> s.out_datagrams == n
        }),
{
    if c.names[k] == "InDatagrams"@ {
        counter_is_below_its_name(c, "InDatagrams"@, false, k, n);
    }
    if c.names[k] == "NoPorts"@ {
        counter_is_below_its_name(c, "NoPorts"@, false, k, n);
    }
    if c.names[k] == "InErrors"@ {
        counter_is_below_its_name(c, "InErrors"@, false, k, n);
    }
    if c.names[k] == "OutDatagrams"@ {
        counter_is_below_its_name(c, "OutDatagrams"@, false, k, n);
    }
}

/// An ICMP counter is the number below its name, wherever its column stands.
#[verifier::rlimit(40)]
pub proof fn icmp_counters_go_by_name(text: Seq<char>, c: ColumnsView, k: int, n: nat)
    requires
        columns_of(text, "Icmp:"@) == Some(c),
        0 <= k < c.names.len(),
        k < c.values.len(),
        c.values[k] == decimal(n),
        n <= u32::MAX,
        forall|j: int|
            k < j < c.names.len() ==> #[trigger] c.names[j] != c.names[k],
    ensures
        ({
            let s = icmp_scalars_of(text);
            let name = c.names[k];
            &&& name == "InMsgs"@ ==> s.in_msgs == n
            &&& name == "InErrors"@ ==> s.in_errors == n
            &&& name == "InDestUnreachs"@ ==> s.in_dest_unreachs == n
            &&& name == "InTimeExcds"@ ==> s.in_time_excds == n
            &&& name == "InParmProbs"@ ==> s.in_parm_probs == n
            &&& name == "InSrcQuenchs"@ ==> s.in_src_quenchs == n
            &&& name == "InRedirects"@ ==> s.in_redirects == n
            &&& name == "InEchos"@ ==> s.in_echos == n
            &&& name == "InEchoReps"@ ==> s.in_echo_reps == n
            &&& name == "InTimestamps"@ ==> s.in_timestamps == n
            &&& name == "InTimestampReps"@ ==> s.in_timestamp_reps == n
            &&& name == "InAddrMasks"@ ==> s.in_addr_masks == n
            &&& name == "InAddrMaskReps"@ ==> s.in_addr_mask_reps == n
            &&& name == "OutMsgs"@ ==> s.out_msgs == n
            &&& name == "OutErrors"@ ==> s.out_errors == n
            &&& name == "OutDestUnreachs"@ ==> s.out_dest_unreachs == n
            &&& name == "OutTimeExcds"@ ==> s.out_time_excds == n
            &&& name == "OutParmProbs"@ ==> s.out_parm_probs == n
            &&& name == "OutSrcQuenchs"@ ==> s.out_src_quenchs == n
            &&& name == "OutRedirects"@ ==> s.out_redirects == n
            &&& name == "OutEchos"@ ==> s.out_echos == n
            &&& name == "OutEchoReps"@ ==> s.out_echo_reps == n
            &&& name == "OutTimestamps"@ ==> s.out_timestamps == n
            &&& name == "OutTimestampReps"@ ==> s.out_timestamp_reps == n
            &&& name == "OutAddrMasks"@ ==> s.out_addr_masks == n
            &&& name == "OutAddrMaskReps"@ ==> s.out_addr_mask_reps == n
        }),
{
    if c.names[k] == "InMsgs"@ {
        counter_is_below_its_name(c, "InMsgs"@, false, k, n);
    }
    if c.names[k] == "InErrors"@ {
        counter_is_below_its_name(c, "InErrors"@, false, k, n);
    }
    if c.names[k] == "InDestUnreachs"@ {
        counter_is_below_its_name(c, "InDestUnreachs"@, false, k, n);
    }
    if c.names[k] == "InTimeExcds"@ {
        counter_is_below_its_name(c, "InTimeExcds"@, false, k, n);
    }
    if c.names[k] == "InParmProbs"@ {
        counter_is_below_its_name(c, "InParmProbs"@, false, k, n);
    }
    if c.names[k] == "InSrcQuenchs"@ {
        counter_is_below_its_name(c, "InSrcQuenchs"@, false, k, n);
    }
    if c.names[k] == "InRedirects"@ {
        counter_is_below_its_name(c, "InRedirects"@, false, k, n);
    }
    if c.names[k] == "InEchos"@ {
        counter_is_below_its_name(c, "InEchos"@, false, k, n);
    }
    if c.names[k] == "InEchoReps"@ {
        counter_is_below_its_name(c, "InEchoReps"@, false, k, n);
    }
    if c.names[k] == "InTimestamps"@ {
        counter_is_below_its_name(c, "InTimestamps"@, false, k, n);
    }
    if c.names[k] == "InTimestampReps"@ {
        counter_is_below_its_name(c, "InTimestampReps"@, false, k, n);
    }
    if c.names[k] == "InAddrMasks"@ {
        counter_is_below_its_name(c, "InAddrMasks"@, false, k, n);
    }
    if c.names[k] == "InAddrMaskReps"@ {
        counter_is_below_its_name(c, "InAddrMaskReps"@, false, k, n);
    }
    if c.names[k] == "OutMsgs"@ {
        counter_is_below_its_name(c, "OutMsgs"@, false, k, n);
    }
    if c.names[k] == "OutErrors"@ {
        counter_is_below_its_name(c, "OutErrors"@, false, k, n);
    }
    if c.names[k] == "OutDestUnreachs"@ {
        counter_is_below_its_name(c, "OutDestUnreachs"@, false, k, n);
    }
    if c.names[k] == "OutTimeExcds"@ {
        counter_is_below_its_name(c, "OutTimeExcds"@, false, k, n);
    }
    if c.names[k] == "OutParmProbs"@ {
        counter_is_below_its_name(c, "OutParmProbs"@, false, k, n);
    }
    if c.names[k] == "OutSrcQuenchs"@ {
        counter_is_below_its_name(c, "OutSrcQuenchs"@, false, k, n);
    }
    if c.names[k] == "OutRedirects"@ {
        counter_is_below_its_name(c, "OutRedirects"@, false, k, n);
    }
    if c.names[k] == "OutEchos"@ {
        counter_is_below_its_name(c, "OutEchos"@, false, k, n);
    }
    if c.names[k] == "OutEchoReps"@ {
        counter_is_below_its_name(c, "OutEchoReps"@, false, k, n);
    }
    if c.names[k] == "OutTimestamps"@ {
        counter_is_below_its_name(c, "OutTimestamps"@, false, k, n);
    }
    if c.names[k] == "OutTimestampReps"@ {
        counter_is_below_its_name(c, "OutTimestampReps"@, false, k, n);
    }
    if c.names[k] == "OutAddrMasks"@ {
        counter_is_below_its_name(c, "OutAddrMasks"@, false, k, n);
    }
    if c.names[k] == "OutAddrMaskReps"@ {
        counter_is_below_its_name(c, "OutAddrMaskReps"@, false, k, n);
    }
}

/// An IP parameter or counter is the number below its name, wherever its column stands.
#[verifier::rlimit(40)]
pub proof fn ip_counters_go_by_name(text: Seq<char>, c: ColumnsView, k: int, n: nat)
    requires
        columns_of(text, "Ip:"@) == Some(c),
        0 <= k < c.names.len(),
        k < c.values.len(),
        c.values[k] == decimal(n),
        n <= u32::MAX,
        forall|j: int|
            k < j < c.names.len() ==> #[trigger] c.names[j] != c.names[k],
    ensures
        ({
            let s = ip_scalars_of(text);
            let name = c.names[k];
            &&& name == "Forwarding"@ ==> s.forwarding == n
            &&& name == "DefaultTTL"@ ==> s.default_ttl == n
            &&& name == "InReceives"@ ==> s.in_receives == n
            &&& name == "InHdrErrors"@ ==> s.in_hdr_errors == n
            &&& name == "InAddrErrors"@ ==> s.in_addr_errors == n
            &&& name == "ForwDatagrams"@ ==> s.forw_datagrams == n
            &&& name == "InUnknownProtos"@ ==> s.in_unknown_protos == n
            &&& name == "InDiscards"@ ==> s.in_discards == n
            &&& name == "InDelivers"@ ==> s.in_delivers == n
            &&& name == "OutRequests"@ ==> s.out_requests == n
            &&& name == "OutDiscards"@ ==> s.out_discards == n
            &&& name == "OutNoRoutes"@ ==> s.out_no_routes == n
            &&& name == "ReasmTimeout"@ ==> s.reasm_timeout == n
            &&& name == "ReasmReqds"@ ==> s.reasm_reqds == n
            &&& name == "ReasmOKs"@ ==> s.reasm_oks == n
            &&& name == "ReasmFails"@ ==> s.reasm_fails == n
            &&& name == "FragOKs"@ ==> s.frag_oks == n
            &&& name == "FragFails"@ ==> s.frag_fails == n
            &&& name == "FragCreates"@ ==> s.frag_creates == n
        }),
{
    if c.names[k] == "Forwarding"@ {
        number_is_below_its_name(c, "Forwarding"@, k, n);
    }
    if c.names[k] == "DefaultTTL"@ {
        number_is_below_its_name(c, "DefaultTTL"@, k, n);
    }
    if c.names[k] == "InReceives"@ {
        counter_is_below_its_name(c, "InReceives"@, false, k, n);
    }
    if c.names[k] == "InHdrErrors"@ {
        counter_is_below_its_name(c, "InHdrErrors"@, false, k, n);
    }
    if c.names[k] == "InAddrErrors"@ {
        counter_is_below_its_name(c, "InAddrErrors"@, false, k, n);
    }
    if c.names[k] == "ForwDatagrams"@ {
        counter_is_below_its_name(c, "ForwDatagrams"@, false, k, n);
    }
    if c.names[k] == "InUnknownProtos"@ {
        counter_is_below_its_name(c, "InUnknownProtos"@, false, k, n);
    }
    if c.names[k] == "InDiscards"@ {
        counter_is_below_its_name(c, "InDiscards"@, false, k, n);
    }
    if c.names[k] == "InDelivers"@ {
        counter_is_below_its_name(c, "InDelivers"@, false, k, n);
    }
    if c.names[k] == "OutRequests"@ {
        counter_is_below_its_name(c, "OutRequests"@, false, k, n);
    }
    if c.names[k] == "OutDiscards"@ {
        counter_is_below_its_name(c, "OutDiscards"@, false, k, n);
    }
    if c.names[k] == "OutNoRoutes"@ {
        counter_is_below_its_name(c, "OutNoRoutes"@, false, k, n);
    }
    if c.names[k] == "ReasmTimeout"@ {
        number_is_below_its_name(c, "ReasmTimeout"@, k, n);
    }
    if c.names[k] == "ReasmReqds"@ {
        counter_is_below_its_name(c, "ReasmReqds"@, false, k, n);
    }
    if c.names[k] == "ReasmOKs"@ {
        counter_is_below_its_name(c, "ReasmOKs"@, false, k, n);
    }
    if c.names[k] == "ReasmFails"@ {
        counter_is_below_its_name(c, "ReasmFails"@, false, k, n);
    }
    if c.names[k] == "FragOKs"@ {
        counter_is_below_its_name(c, "FragOKs"@, false, k, n);
    }
    if c.names[k] == "FragFails"@ {
        counter_is_below_its_name(c, "FragFails"@, false, k, n);
    }
    if c.names[k] == "FragCreates"@ {
        counter_is_below_its_name(c, "FragCreates"@, false, k, n);
    }
}

/// Without the lines of TCP all is zero.
pub proof fn absent_tcp_is_zero(text: Seq<char>)
    requires
        columns_of(text, "Tcp:"@) is None,
    ensures
        ({
            let s = tcp_scalars_of(text);
            &&& s.active_opens == 0
            &&& s.passive_opens == 0
            &&& s.attempt_fails == 0
            &&& s.estab_resets == 0
            &&& s.curr_estab == 0
            &&& s.in_segs == 0
            &&& s.out_segs == 0
            &&& s.retrans_segs == 0
            &&& s.in_errs == 0
            &&& s.out_rsts == 0
        }),
{
}

/// Without the lines of UDP all is zero.
pub proof fn absent_udp_is_zero(text: Seq<char>)
    requires
        columns_of(text, "Udp:"@) is None,
    ensures
        ({
            let s = udp_scalars_of(text);
            &&& s.in_datagrams == 0
            &&& s.no_ports == 0
            &&& s.in_errors == 0
            &&& s.out_datagrams == 0
        }),
{
}

/// Without the lines of ICMP all is zero.
pub proof fn absent_icmp_is_zero(text: Seq<char>)
    requires
        columns_of(text, "Icmp:"@) is None,
    ensures
        ({
            let s = icmp_scalars_of(text);
            &&& s.in_msgs == 0
            &&& s.in_errors == 0
            &&& s.in_dest_unreachs == 0
            &&& s.in_time_excds == 0
            &&& s.in_parm_probs == 0
            &&& s.in_src_quenchs == 0
            &&& s.in_redirects == 0
            &&& s.in_echos == 0
            &&& s.in_echo_reps == 0
            &&& s.in_timestamps == 0
            &&& s.in_timestamp_reps == 0
            &&& s.in_addr_masks == 0
            &&& s.in_addr_mask_reps == 0
            &&& s.out_msgs == 0
            &&& s.out_errors == 0
            &&& s.out_dest_unreachs == 0
            &&& s.out_time_excds == 0
            &&& s.out_parm_probs == 0
            &&& s.out_src_quenchs == 0
            &&& s.out_redirects == 0
            &&& s.out_echos == 0
            &&& s.out_echo_reps == 0
            &&& s.out_timestamps == 0
            &&& s.out_timestamp_reps == 0
            &&& s.out_addr_masks == 0
            &&& s.out_addr_mask_reps == 0
        }),
{
}

/// Without the lines of IP all is zero.
pub proof fn absent_ip_is_zero(text: Seq<char>)
    requires
        columns_of(text, "Ip:"@) is None,
    ensures
        ({
            let s = ip_scalars_of(text);
            &&& s.forwarding == 0
            &&& s.default_ttl == 0
            &&& s.in_receives == 0
            &&& s.in_hdr_errors == 0
            &&& s.in_addr_errors == 0
            &&& s.forw_datagrams == 0
            &&& s.in_unknown_protos == 0
            &&& s.in_discards == 0
            &&& s.in_delivers == 0
            &&& s.out_requests == 0
            &&& s.out_discards == 0
            &&& s.out_no_routes == 0
            &&& s.reasm_timeout == 0
            &&& s.reasm_reqds == 0
            &&& s.reasm_oks == 0
            &&& s.reasm_fails == 0
            &&& s.frag_oks == 0
            &&& s.frag_fails == 0
            &&& s.frag_creates == 0
        }),
{
}

/// The kernel's lists begin with a heading, which is no entry: one line of it before connections,
/// neighbours and routes, and two before interfaces.
pub proof fn headings_are_left_out(a: Seq<char>, b: Seq<char>, rest: Seq<char>)
    requires
        lacks(a, '\n'),
        lacks(b, '\n'),
        a.len() > 0 ==> a[a.len() - 1] != '\r',
        b.len() > 0 ==> b[b.len() - 1] != '\r',
    ensures
        below_heading(a + seq!['\n'] + rest) == lines(rest),
        below_heading(Seq::empty()) == Seq::<Seq<char>>::empty(),
        below_two(a + seq!['\n'] + (b + seq!['\n'] + rest)) == lines(rest),
{
    let one = a + seq!['\n'] + rest;
    lines_end_with_a_line_feed(a, rest);
    assert(lines(one).skip(1) =~= lines(rest));
    last_line_needs_no_line_feed(Seq::empty());
    let more = b + seq!['\n'] + rest;
    let two = a + seq!['\n'] + more;
    lines_end_with_a_line_feed(b, rest);
    lines_end_with_a_line_feed(a, more);
    assert(lines(two) =~= seq![a, b] + lines(rest));
    if lines(rest).len() > 0 {
        assert(lines(two).skip(2) =~= lines(rest));
    } else {
        assert(lines(rest) =~= Seq::<Seq<char>>::empty());
    }
}

/// The name of an interface stands before the colon, without the white space round it.
pub proof fn interface_names_stand_before_the_colon(
    a: Seq<char>,
    name: Seq<char>,
    b: Seq<char>,
    rest: Seq<char>,
)
    requires
        is_blank(a),
        is_blank(b),
        is_tight(name),
        lacks(name, ':'),
    ensures
        interface_name(a + name + b + seq![':'] + rest) == name,
{
    let p = a + name + b;
    assert(lacks(p, ':')) by {
        assert forall|i: int| 0 <= i < p.len() implies #[trigger] p[i] != ':' by {
            if i < a.len() {
                assert(p[i] == a[i]);
                assert(is_space(a[i]));
            } else if i < a.len() + name.len() {
                assert(p[i] == name[i - a.len()]);
            } else {
                assert(p[i] == b[i - a.len() - name.len()]);
                assert(is_space(b[i - a.len() - name.len()]));
            }
        }
    }
    lemma_colon(p, rest);
    let s = p + seq![':'] + rest;
    assert(s.take(p.len() as int) =~= p);
    trimming_takes_the_white_space(a, name, b);
}

} // verus!
