use netsnmp_agent::cells::{collect_cells, sort_cells};
use netsnmp_agent::inet::{ipv4_to_string, parse_ipv4};
use netsnmp_agent::oid::Oid;
use netsnmp_agent::pdu::{ErrorStatus, PduType};
use netsnmp_agent::text::{hex_encode, text_of_bytes};
use netsnmp_agent::value::{Ipv4Addr, Value};

#[test]
fn oid_text_reads_back() {
    let oid: Oid = "1.3.6.1.4294967295".parse().unwrap();
    assert_eq!(oid.to_string(), ".1.3.6.1.4294967295");
    assert_eq!(oid.to_string().parse::<Oid>().unwrap(), oid);
    assert!("1.3.x".parse::<Oid>().is_err());
    assert!("1.3.4294967296".parse::<Oid>().is_err());
    assert!("1..3".parse::<Oid>().is_err());
}

#[test]
fn oids_are_ordered_arc_by_arc() {
    let a: Oid = "1.3".parse().unwrap();
    let b: Oid = "1.3.0".parse().unwrap();
    let c: Oid = "1.10".parse().unwrap();
    assert!(a.before(&b) && b.before(&c) && a.before(&c));
    assert!(!b.before(&a) && !a.before(&a));
    assert!(a.is_prefix_of(&b) && a.is_prefix_of(&a) && !b.is_prefix_of(&a));
    assert!(a < b && b < c);
}

#[test]
fn statuses_read_back_from_their_codes() {
    for code in 0..19 {
        assert_eq!(ErrorStatus::from_code(code).code(), code);
    }
    assert_eq!(ErrorStatus::NoAccess.code(), 6);
    assert_eq!(ErrorStatus::WrongType.code(), 7);
    assert_eq!(ErrorStatus::from_code(99), ErrorStatus::GenErr);
    assert!(ErrorStatus::NoError.is_ok());
    assert!(!ErrorStatus::GenErr.is_ok());
}

#[test]
fn kinds_of_pdu_read_back_from_their_tags() {
    assert_eq!(PduType::Get.tag(), 0xA0);
    assert_eq!(PduType::SetRequest.tag(), 0xA3);
    for tag in 0xA0..0xA9u8 {
        if let Some(t) = PduType::from_tag(tag) {
            assert_eq!(t.tag(), tag);
        }
    }
    assert_eq!(PduType::from_tag(0x30), None);
}

#[test]
fn addresses_read_back() {
    let ip = Ipv4Addr::new(10, 0, 255, 1);
    assert_eq!(ipv4_to_string(&ip), "10.0.255.1");
    let parse = |s: &str| parse_ipv4(&s.chars().collect::<Vec<char>>());
    assert_eq!(parse("10.0.255.1"), Some(ip));
    assert_eq!(parse("10.0.256.1"), None);
    assert_eq!(parse("10.0.1"), None);
    assert_eq!(parse("01.0.0.1"), None);
}

#[test]
fn cells_are_sorted_stably_and_collected_by_the_last() {
    let cell = |arc: u32, n: i64| (Oid::new(vec![1, arc]), Value::Integer(n));
    let sorted = sort_cells(vec![cell(2, 1), cell(1, 2), cell(2, 3)]);
    let values: Vec<Value> = sorted.into_iter().map(|(_, v)| v).collect();
    assert_eq!(
        values,
        vec![Value::Integer(2), Value::Integer(1), Value::Integer(3)]
    );
    let table = collect_cells(vec![cell(2, 1), cell(1, 2), cell(2, 3)]);
    assert_eq!(table, vec![cell(1, 2), cell(2, 3)]);
}

#[test]
fn bytes_become_text() {
    assert_eq!(hex_encode(&[0x00, 0xff, 0x1a]), "00ff1a");
    assert_eq!(text_of_bytes("gr\u{fc}n".as_bytes()), "gr\u{fc}n");
    assert_eq!(text_of_bytes(&[b'a', 0xc3]), "a\u{fffd}");
}
