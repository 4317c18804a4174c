use netsnmp_agent::handler::MibHandler;
use netsnmp_agent::mibgroup::at::{at_cells, at_handler};
use netsnmp_agent::mibgroup::icmp::{
    icmp_handlers, icmp_scalar_cells, parse_icmp_scalars, IcmpScalars,
};
use netsnmp_agent::mibgroup::ip::{
    ip_handlers, ip_net_to_media_cells, ip_scalar_cells, parse_arp_entries, parse_ip_scalars,
    IpScalars,
};
use netsnmp_agent::mibgroup::route::{parse_route_entries, route_cells, route_handler};
use netsnmp_agent::mibgroup::tcp::{
    map_tcp_state, parse_tcp_conns, parse_tcp_scalars, tcp_conn_cells, tcp_handlers,
    tcp_scalar_cells, TcpScalars,
};
use netsnmp_agent::mibgroup::udp::{
    parse_udp_entries, parse_udp_scalars, udp_entry_cells, udp_handlers, udp_scalar_cells,
    UdpScalars,
};
use netsnmp_agent::oid::Oid;
use netsnmp_agent::value::{Ipv4Addr, Value};

const SNMP_SAMPLE: &str = "\
Ip: Forwarding DefaultTTL InReceives InHdrErrors InAddrErrors ForwDatagrams InUnknownProtos InDiscards InDelivers OutRequests OutDiscards OutNoRoutes ReasmTimeout ReasmReqds ReasmOKs ReasmFails FragOKs FragFails FragCreates
Ip: 1 64 12345 0 1 0 0 0 12000 9000 0 0 0 0 0 0 0 0 0
Icmp: InMsgs InErrors InDestUnreachs InTimeExcds InParmProbs InSrcQuenchs InRedirects OutMsgs OutErrors OutDestUnreachs OutTimeExcds OutParmProbs OutSrcQuenchs OutRedirects OutEchos OutEchoReps OutTimestamps OutTimestampReps OutAddrMasks OutAddrMaskReps
Icmp: 10 0 5 0 0 0 0 8 0 3 0 0 0 0 0 5 0 0 0 0
Tcp: RtoAlgorithm RtoMin RtoMax MaxConn ActiveOpens PassiveOpens AttemptFails EstabResets CurrEstab InSegs OutSegs RetransSegs InErrs OutRsts
Tcp: 1 200 120000 -1 100 200 5 10 3 5000 6000 7 2 9
Udp: InDatagrams NoPorts InErrors OutDatagrams
Udp: 300 4 0 295
";

const TCP_SAMPLE: &str = "  sl  local_address rem_address   st tx_queue rx_queue tr tm->when retrnsmt   uid  timeout inode
   0: 0100007F:1F90 00000000:0000 0A 00000000:00000000 00:00000000 00000000     0        0 12345 1 0000000000000000 100 0 0 10 0
   1: 0100A8C0:831 0501A8C0:0050 01 00000000:00000000 00:00000000 00000000     0        0 67890 1 0000000000000000 20 4 30 5 -1
   2: 0100007F:0016 0100007F:D4C9 06 00000000:00000000 00:00000000 00000000     0        0 99999 1 0000000000000000 21 4 1 5 -1
";

const UDP_SAMPLE: &str = "  sl  local_address rem_address   st tx_queue rx_queue tr tm->when retrnsmt   uid  timeout inode
   0: 00000000:82F0 00000000:0000 07 00000000:00000000 00:00000000 00000000     0        0 11111 1 0000000000000000 100 0 0 10 0
   1: 0100007F:0035 00000000:0000 07 00000000:00000000 00:00000000 00000000     0        0 22222 1 0000000000000000 100 0 0 10 0
";

const UDP_SNMP_SAMPLE: &str = "\
Tcp: RtoAlgorithm RtoMin RtoMax MaxConn ActiveOpens PassiveOpens AttemptFails EstabResets CurrEstab InSegs OutSegs RetransSegs InErrs OutRsts
Tcp: 1 200 120000 -1 100 200 5 10 3 5000 6000 7 2 9
Udp: InDatagrams NoPorts InErrors OutDatagrams
Udp: 300 4 0 295
";

const IP_SNMP_SAMPLE: &str = "\
Ip: Forwarding DefaultTTL InReceives InHdrErrors InAddrErrors ForwDatagrams InUnknownProtos InDiscards InDelivers OutRequests OutDiscards OutNoRoutes ReasmTimeout ReasmReqds ReasmOKs ReasmFails FragOKs FragFails FragCreates
Ip: 2 64 12345 0 1 0 0 0 12000 9000 0 0 0 0 0 0 0 0 0
Tcp: 1 200 120000 -1 100 200 5 10 3 5000 6000 7 2 9
";

const ICMP_SNMP_SAMPLE: &str = "\
Icmp: InMsgs InErrors InDestUnreachs InTimeExcds InParmProbs InSrcQuenchs InRedirects InEchos InEchoReps InTimestamps InTimestampReps InAddrMasks InAddrMaskReps OutMsgs OutErrors OutDestUnreachs OutTimeExcds OutParmProbs OutSrcQuenchs OutRedirects OutEchos OutEchoReps OutTimestamps OutTimestampReps OutAddrMasks OutAddrMaskReps
Icmp: 10 0 5 0 0 0 0 0 5 0 0 0 0 8 0 3 0 0 0 0 0 5 0 0 0 0
";

const ARP_SAMPLE: &str = "\
IP address       HW type     Flags       HW address            Mask     Device
192.168.1.5      0x1         0x2         aa:bb:cc:dd:ee:ff     *        eth0
192.168.1.1      0x1         0x6         00:11:22:33:44:55     *        eth0
10.0.0.99        0x1         0x0         00:00:00:00:00:00     *        eth1
";

const ROUTE_SAMPLE: &str = "\
Iface   Destination     Gateway         Flags   RefCnt  Use     Metric  Mask            MTU     Window  IRTT
eth0    00000000        0100A8C0        0003    0       0       100     00000000        0       0       0
eth0    0001A8C0        00000000        0001    0       0       0       00FFFFFF        0       0       0
lo      0000007F        00000000        0001    0       0       1       0000007F        0       0       0
";

fn find(cells: &[(Oid, Value)], name: &str) -> Option<Value> {
    cells
        .iter()
        .find(|(o, _)| o.to_string() == name)
        .map(|(_, v)| v.clone())
}

fn is_sorted(cells: &[(Oid, Value)]) -> bool {
    cells.windows(2).all(|w| w[0].0 < w[1].0)
}

#[test]
fn parses_tcp_scalars_from_snmp() {
    let s = parse_tcp_scalars(SNMP_SAMPLE);
    assert_eq!(s.active_opens, 100);
    assert_eq!(s.passive_opens, 200);
    assert_eq!(s.attempt_fails, 5);
    assert_eq!(s.estab_resets, 10);
    assert_eq!(s.curr_estab, 3);
    assert_eq!(s.in_segs, 5000);
    assert_eq!(s.out_segs, 6000);
    assert_eq!(s.retrans_segs, 7);
    assert_eq!(s.in_errs, 2);
    assert_eq!(s.out_rsts, 9);
}

#[test]
fn parses_missing_tcp_scalars_as_default() {
    let s = parse_tcp_scalars("Ip: 1 64 0\n");
    assert_eq!(s, TcpScalars::default());
    let s2 = parse_tcp_scalars("Tcp: RtoAlgorithm RtoMin\n");
    assert_eq!(s2, TcpScalars::default());
}

#[test]
fn tcp_column_names_match_in_any_case() {
    let s = parse_tcp_scalars("Tcp: activeopens INSEGS\nTcp: 3 4\n");
    assert_eq!(s.active_opens, 3);
    assert_eq!(s.in_segs, 4);
}

#[test]
fn maps_tcp_states() {
    assert_eq!(map_tcp_state("01"), 5);
    assert_eq!(map_tcp_state("0A"), 2);
    assert_eq!(map_tcp_state("06"), 11);
    assert_eq!(map_tcp_state("ZZ"), 1);
}

#[test]
fn every_tcp_state_has_its_number() {
    let states = [
        ("01", 5),
        ("02", 3),
        ("03", 4),
        ("04", 6),
        ("05", 7),
        ("06", 11),
        ("07", 1),
        ("08", 8),
        ("09", 9),
        ("0A", 2),
        ("0B", 10),
    ];
    for (hex, state) in states {
        assert_eq!(map_tcp_state(hex), state, "{hex}");
    }
}

#[test]
fn parses_tcp_connections() {
    let conns = parse_tcp_conns(TCP_SAMPLE);
    assert_eq!(conns.len(), 3);
    assert_eq!(conns[0].local_addr, Ipv4Addr::new(127, 0, 0, 1));
    assert_eq!(conns[0].local_port, 0x1F90);
    assert_eq!(conns[0].rem_addr, Ipv4Addr::new(0, 0, 0, 0));
    assert_eq!(conns[0].state, 2);
    assert_eq!(conns[1].local_addr, Ipv4Addr::new(192, 168, 0, 1));
    assert_eq!(conns[1].local_port, 0x831);
    assert_eq!(conns[1].rem_addr, Ipv4Addr::new(192, 168, 1, 5));
    assert_eq!(conns[1].rem_port, 80);
    assert_eq!(conns[1].state, 5);
    assert_eq!(conns[2].state, 11);
}

#[test]
fn tcp_scalar_cells_cover_columns() {
    let s = TcpScalars {
        in_segs: 5000,
        out_segs: 6000,
        ..Default::default()
    };
    let cells = tcp_scalar_cells(&s);
    let get = |col: u32| find(&cells, &format!(".1.3.6.1.2.1.6.{col}.0"));
    assert_eq!(get(1), Some(Value::Integer(1)));
    assert_eq!(get(10), Some(Value::Counter32(5000)));
    assert_eq!(get(11), Some(Value::Counter32(6000)));
    assert_eq!(get(9), Some(Value::Gauge32(0)));
    assert!(is_sorted(&cells));
}

#[test]
fn tcp_conn_cells_encode_index() {
    let conns = parse_tcp_conns(TCP_SAMPLE);
    let cells = tcp_conn_cells(&conns);
    let state_oid: Oid = ".1.3.6.1.2.1.6.13.1.1.1.192.168.0.1.2097.192.168.1.5.80"
        .parse()
        .unwrap();
    let state = cells
        .iter()
        .find(|(o, _)| o == &state_oid)
        .map(|(_, v)| v.clone());
    assert_eq!(state, Some(Value::Integer(5)));
}

#[test]
fn handler_returns_zero_scalars_and_empty_table_without_proc() {
    let cells: Vec<(Oid, Value)> = {
        let scalars = parse_tcp_scalars("");
        let conns = parse_tcp_conns("");
        let mut out = tcp_scalar_cells(&scalars);
        out.extend(tcp_conn_cells(&conns));
        out
    };
    let has_rto = cells
        .iter()
        .any(|(o, _)| o.to_string() == ".1.3.6.1.2.1.6.1.0");
    assert!(has_rto);
}

#[test]
fn tcp_handler_serves_cells() {
    let handlers = tcp_handlers(SNMP_SAMPLE, TCP_SAMPLE);
    assert_eq!(handlers.len(), 1);
    let root: Oid = "1.3.6.1.2.1.6".parse().unwrap();
    let first = handlers[0].get_next(&root).expect("first successor");
    assert!(first.oid > root);
}

#[test]
fn malformed_connections_are_left_out() {
    let conns = parse_tcp_conns("heading\nx: 0100007F:1 zz 0A\nx: 0100007F 00000000:0 0A\nshort\n");
    assert!(conns.is_empty());
}

#[test]
fn parses_udp_scalars_from_snmp() {
    let s = parse_udp_scalars(UDP_SNMP_SAMPLE);
    assert_eq!(s.in_datagrams, 300);
    assert_eq!(s.no_ports, 4);
    assert_eq!(s.in_errors, 0);
    assert_eq!(s.out_datagrams, 295);
}

#[test]
fn parses_missing_udp_scalars_as_default() {
    assert_eq!(parse_udp_scalars("Tcp: 1\n"), UdpScalars::default());
    assert_eq!(
        parse_udp_scalars("Udp: InDatagrams\n"),
        UdpScalars::default()
    );
}

#[test]
fn parses_udp_entries() {
    let entries = parse_udp_entries(UDP_SAMPLE);
    assert_eq!(entries.len(), 2);
    assert_eq!(entries[0].local_addr, Ipv4Addr::new(0, 0, 0, 0));
    assert_eq!(entries[0].local_port, 0x82F0);
    assert_eq!(entries[1].local_addr, Ipv4Addr::new(127, 0, 0, 1));
    assert_eq!(entries[1].local_port, 53);
}

#[test]
fn udp_scalar_cells_cover_columns() {
    let s = UdpScalars {
        in_datagrams: 300,
        no_ports: 4,
        in_errors: 0,
        out_datagrams: 295,
    };
    let cells = udp_scalar_cells(&s);
    let get = |col: u32| find(&cells, &format!(".1.3.6.1.2.1.7.{col}.0"));
    assert_eq!(get(1), Some(Value::Counter32(300)));
    assert_eq!(get(2), Some(Value::Counter32(4)));
    assert_eq!(get(3), Some(Value::Counter32(0)));
    assert_eq!(get(4), Some(Value::Counter32(295)));
}

#[test]
fn udp_entry_cells_encode_index() {
    let entries = parse_udp_entries(UDP_SAMPLE);
    let cells = udp_entry_cells(&entries);
    let oid: Oid = ".1.3.6.1.2.1.7.5.1.1.1.127.0.0.1.53".parse().unwrap();
    let addr = cells
        .iter()
        .find(|(o, _)| o == &oid)
        .map(|(_, v)| v.clone());
    assert_eq!(addr, Some(Value::IpAddress(Ipv4Addr::new(127, 0, 0, 1))));
}

#[test]
fn udp_handler_returns_zero_scalars_without_proc() {
    let cells: Vec<(Oid, Value)> = {
        let scalars = parse_udp_scalars("");
        let entries = parse_udp_entries("");
        let mut out = udp_scalar_cells(&scalars);
        out.extend(udp_entry_cells(&entries));
        out
    };
    let get = |col: u32| find(&cells, &format!(".1.3.6.1.2.1.7.{col}.0"));
    assert_eq!(get(1), Some(Value::Counter32(0)));
    assert_eq!(get(4), Some(Value::Counter32(0)));
}

#[test]
fn udp_handler_serves_cells() {
    let handlers = udp_handlers(UDP_SNMP_SAMPLE, UDP_SAMPLE);
    assert_eq!(handlers.len(), 1);
    let root: Oid = "1.3.6.1.2.1.7".parse().unwrap();
    let first = handlers[0].get_next(&root).expect("first successor");
    assert!(first.oid > root);
}

#[test]
fn parses_ip_scalars_from_snmp() {
    let s = parse_ip_scalars(IP_SNMP_SAMPLE);
    assert_eq!(s.forwarding, 2);
    assert_eq!(s.default_ttl, 64);
    assert_eq!(s.in_receives, 12345);
    assert_eq!(s.in_hdr_errors, 0);
    assert_eq!(s.in_addr_errors, 1);
    assert_eq!(s.in_delivers, 12000);
    assert_eq!(s.out_requests, 9000);
}

#[test]
fn parses_missing_ip_scalars_as_default() {
    assert_eq!(parse_ip_scalars("Tcp: 1\n"), IpScalars::default());
    assert_eq!(parse_ip_scalars("Ip: Forwarding\n"), IpScalars::default());
}

#[test]
fn parses_arp_entries() {
    let entries = parse_arp_entries(ARP_SAMPLE);
    assert_eq!(entries.len(), 2);
    assert_eq!(entries[0].net_address, Ipv4Addr::new(192, 168, 1, 5));
    assert_eq!(
        entries[0].phys_address,
        vec![0xaa, 0xbb, 0xcc, 0xdd, 0xee, 0xff]
    );
    assert_eq!(entries[0].media_type, 4);
    assert_eq!(entries[1].media_type, 4);
    assert_eq!(entries[0].if_index, 1);
}

#[test]
fn arp_devices_are_numbered_in_order() {
    let text = "heading\n\
                10.0.0.1 0x1 0x0 aa:bb:cc:dd:ee:01 * wlan0\n\
                10.0.0.2 0x1 0x0 aa:bb:cc:dd:ee:02 * eth0\n\
                10.0.0.3 0x1 0x2 aa:bb:cc:dd:ee:zz * aaa0\n";
    let entries = parse_arp_entries(text);
    assert_eq!(entries.len(), 2);
    assert_eq!(entries[0].if_index, 2);
    assert_eq!(entries[1].if_index, 1);
    assert_eq!(entries[0].media_type, 3);
}

#[test]
fn ip_hardware_addresses_are_all_or_nothing() {
    assert_eq!(
        netsnmp_agent::mibgroup::ip::parse_mac("aa:bb"),
        vec![0xaa, 0xbb]
    );
    assert!(netsnmp_agent::mibgroup::ip::parse_mac("aa:xx").is_empty());
}

#[test]
fn ip_scalar_cells_cover_columns() {
    let s = IpScalars {
        forwarding: 2,
        default_ttl: 64,
        in_receives: 12345,
        ..Default::default()
    };
    let cells = ip_scalar_cells(&s);
    let get = |col: u32| find(&cells, &format!(".1.3.6.1.2.1.4.{col}.0"));
    assert_eq!(get(1), Some(Value::Integer(2)));
    assert_eq!(get(2), Some(Value::Integer(64)));
    assert_eq!(get(3), Some(Value::Counter32(12345)));
}

#[test]
fn ip_net_to_media_cells_encode_index() {
    let entries = parse_arp_entries(ARP_SAMPLE);
    let cells = ip_net_to_media_cells(&entries);
    let oid: Oid = ".1.3.6.1.2.1.4.22.1.1.2.1.192.168.1.5".parse().unwrap();
    let mac = cells
        .iter()
        .find(|(o, _)| o == &oid)
        .map(|(_, v)| v.clone());
    assert_eq!(
        mac,
        Some(Value::OctetString(vec![0xaa, 0xbb, 0xcc, 0xdd, 0xee, 0xff]))
    );
}

#[test]
fn ip_handler_returns_zero_scalars_without_proc() {
    let cells: Vec<(Oid, Value)> = {
        let scalars = parse_ip_scalars("");
        let arp = parse_arp_entries("");
        let mut out = ip_scalar_cells(&scalars);
        out.extend(ip_net_to_media_cells(&arp));
        out
    };
    assert_eq!(find(&cells, ".1.3.6.1.2.1.4.1.0"), Some(Value::Integer(0)));
}

#[test]
fn ip_handler_serves_cells() {
    let handlers = ip_handlers(IP_SNMP_SAMPLE, ARP_SAMPLE);
    assert_eq!(handlers.len(), 1);
    let root: Oid = "1.3.6.1.2.1.4".parse().unwrap();
    let first = handlers[0].get_next(&root).expect("first successor");
    assert!(first.oid > root);
}

#[test]
fn parses_icmp_scalars_from_snmp() {
    let s = parse_icmp_scalars(ICMP_SNMP_SAMPLE);
    assert_eq!(s.in_msgs, 10);
    assert_eq!(s.in_errors, 0);
    assert_eq!(s.in_dest_unreachs, 5);
    assert_eq!(s.in_echo_reps, 5);
    assert_eq!(s.out_msgs, 8);
    assert_eq!(s.out_dest_unreachs, 3);
    assert_eq!(s.out_echo_reps, 5);
    assert_eq!(s.out_addr_mask_reps, 0);
}

#[test]
fn parses_missing_icmp_scalars_as_default() {
    assert_eq!(parse_icmp_scalars("Tcp: 1\n"), IcmpScalars::default());
    assert_eq!(parse_icmp_scalars("Icmp: InMsgs\n"), IcmpScalars::default());
}

#[test]
fn icmp_scalar_cells_cover_all_columns() {
    let s = parse_icmp_scalars(ICMP_SNMP_SAMPLE);
    let cells = icmp_scalar_cells(&s);
    assert_eq!(cells.len(), 26);
    let get = |col: u32| find(&cells, &format!(".1.3.6.1.2.1.5.{col}.0"));
    assert_eq!(get(1), Some(Value::Counter32(10)));
    assert_eq!(get(3), Some(Value::Counter32(5)));
    assert_eq!(get(14), Some(Value::Counter32(8)));
    assert_eq!(get(22), Some(Value::Counter32(5)));
    assert!(is_sorted(&cells));
}

#[test]
fn icmp_handler_returns_zero_scalars_without_proc() {
    let cells = icmp_scalar_cells(&parse_icmp_scalars(""));
    assert_eq!(cells.len(), 26);
    assert_eq!(find(&cells, ".1.3.6.1.2.1.5.1.0"), Some(Value::Counter32(0)));
}

#[test]
fn icmp_handler_serves_cells() {
    let handlers = icmp_handlers(ICMP_SNMP_SAMPLE);
    assert_eq!(handlers.len(), 1);
    let root: Oid = "1.3.6.1.2.1.5".parse().unwrap();
    let first = handlers[0].get_next(&root).expect("first successor");
    assert!(first.oid > root);
}

#[test]
fn at_cells_encode_index() {
    let entries = parse_arp_entries(ARP_SAMPLE);
    let cells = at_cells(&entries);
    let oid: Oid = ".1.3.6.1.2.1.3.1.1.1.2.1.192.168.1.5".parse().unwrap();
    let mac = cells
        .iter()
        .find(|(o, _)| o == &oid)
        .map(|(_, v)| v.clone());
    assert_eq!(
        mac,
        Some(Value::OctetString(vec![0xaa, 0xbb, 0xcc, 0xdd, 0xee, 0xff]))
    );
    let net_oid: Oid = ".1.3.6.1.2.1.3.1.1.1.3.1.192.168.1.5".parse().unwrap();
    let net = cells
        .iter()
        .find(|(o, _)| o == &net_oid)
        .map(|(_, v)| v.clone());
    assert_eq!(net, Some(Value::IpAddress(Ipv4Addr::new(192, 168, 1, 5))));
}

#[test]
fn at_handler_empty_without_proc() {
    let cells: Vec<(Oid, Value)> = at_cells(&parse_arp_entries(""));
    assert!(cells.is_empty());
}

#[test]
fn at_handler_is_walkable() {
    let root: Oid = "1.3.6.1.2.1.3.1".parse().unwrap();
    assert!(at_handler("").get_next(&root).is_none());
    let first = at_handler(ARP_SAMPLE).get_next(&root).expect("first row");
    assert!(first.oid > root);
}

#[test]
fn parses_route_entries() {
    let entries = parse_route_entries(ROUTE_SAMPLE);
    assert_eq!(entries.len(), 3);
    assert_eq!(entries[0].dest, Ipv4Addr::new(0, 0, 0, 0));
    assert_eq!(entries[0].next_hop, Ipv4Addr::new(192, 168, 0, 1));
    assert_eq!(entries[0].if_index, 1);
    assert_eq!(entries[0].metric1, 100);
    assert_eq!(entries[0].route_type, 4);
    assert_eq!(entries[0].mask, Ipv4Addr::new(0, 0, 0, 0));
    assert_eq!(entries[1].dest, Ipv4Addr::new(192, 168, 1, 0));
    assert_eq!(entries[1].route_type, 3);
    assert_eq!(entries[1].mask, Ipv4Addr::new(255, 255, 255, 0));
    assert_eq!(entries[2].dest, Ipv4Addr::new(127, 0, 0, 0));
    assert_eq!(entries[2].route_proto, 2);
}

#[test]
fn route_interfaces_are_numbered_as_they_come() {
    let entries = parse_route_entries(ROUTE_SAMPLE);
    assert_eq!(entries[1].if_index, 1);
    assert_eq!(entries[2].if_index, 2);
    let bad = parse_route_entries("heading\neth0 00000000 00000000 0001 0 0 x 00000000\n");
    assert_eq!(bad[0].metric1, -1);
}

#[test]
fn route_cells_encode_index() {
    let entries = parse_route_entries(ROUTE_SAMPLE);
    let cells = route_cells(&entries);
    let oid: Oid = ".1.3.6.1.2.1.4.21.1.1.7.0.0.0.0".parse().unwrap();
    let gw = cells
        .iter()
        .find(|(o, _)| o == &oid)
        .map(|(_, v)| v.clone());
    assert_eq!(gw, Some(Value::IpAddress(Ipv4Addr::new(192, 168, 0, 1))));
    let mask_oid: Oid = ".1.3.6.1.2.1.4.21.1.1.11.192.168.1.0".parse().unwrap();
    let mask = cells
        .iter()
        .find(|(o, _)| o == &mask_oid)
        .map(|(_, v)| v.clone());
    assert_eq!(mask, Some(Value::IpAddress(Ipv4Addr::new(255, 255, 255, 0))));
    assert!(is_sorted(&cells));
}

#[test]
fn route_handler_empty_without_proc() {
    let cells: Vec<(Oid, Value)> = route_cells(&parse_route_entries(""));
    assert!(cells.is_empty());
}

#[test]
fn route_handler_is_walkable() {
    let root: Oid = "1.3.6.1.2.1.4.21.1".parse().unwrap();
    assert!(route_handler("").get_next(&root).is_none());
    assert!(route_handler(ROUTE_SAMPLE).get_next(&root).is_some());
}
