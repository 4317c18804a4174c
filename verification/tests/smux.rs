use netsnmp_agent::ber::{is_packable, parse_tlv};
use netsnmp_agent::config::Directive;
use netsnmp_agent::handler::MibHandler;
use netsnmp_agent::mibgroup::smux_mib::{smux_mib_cells, smux_mib_handlers};
use netsnmp_agent::oid::Oid;
use netsnmp_agent::pdu::{ErrorStatus, Pdu, PduType};
use netsnmp_agent::smux::codec::{
    decode_bare_snmp_pdu, decode_smux_pdu, encode_register, encode_snmp_request,
    encode_snmp_response, RRspCode, SmuxClose, SmuxError, SmuxOpen, SmuxPdu, SmuxRRsp,
};
use netsnmp_agent::smux::server::{
    content_octets_to_read, forwarded_reading, forwarded_value, from_config_directives,
    length_octets_to_read, smux_handler, RequestIds, SmuxAction, SmuxPeer, SmuxServer,
    SmuxServerConfig, SmuxSubtreeHandler,
};
use netsnmp_agent::smux::tags;
use netsnmp_agent::value::{Value, VarBind};

fn oid(s: &str) -> Oid {
    s.parse().unwrap()
}

#[test]
fn smux_open_roundtrip() {
    let open = SmuxOpen {
        version: 0,
        identity: oid("1.3.6.1.4.1.9999"),
        description: "test-peer".into(),
        password: "secret".into(),
    };
    let bytes = open.encode();
    assert_eq!(bytes[0], tags::SMUX_OPEN);
    let (pdu, consumed) = decode_smux_pdu(&bytes).unwrap();
    assert_eq!(consumed, bytes.len());
    match pdu {
        SmuxPdu::Open(o) => {
            assert_eq!(o.version, 0);
            assert_eq!(o.identity.to_string(), ".1.3.6.1.4.1.9999");
            assert_eq!(o.description, "test-peer");
            assert_eq!(o.password, "secret");
        }
        _ => panic!("expected Open, got {pdu:?}"),
    }
}

#[test]
fn smux_close_roundtrip() {
    let close = SmuxClose { code: -1 };
    let bytes = close.encode();
    assert_eq!(bytes[0], tags::SMUX_CLOSE);
    let (pdu, consumed) = decode_smux_pdu(&bytes).unwrap();
    assert_eq!(consumed, bytes.len());
    match pdu {
        SmuxPdu::Close(c) => assert_eq!(c.code, -1),
        _ => panic!("expected Close"),
    }
}

#[test]
fn smux_rrsp_roundtrip() {
    let rsp = SmuxRRsp {
        code: RRspCode::ReadOnly.code(),
    };
    let bytes = rsp.encode();
    assert_eq!(bytes[0], tags::SMUX_RRSP);
    let (pdu, _) = decode_smux_pdu(&bytes).unwrap();
    match pdu {
        SmuxPdu::RRsp(r) => assert_eq!(r.code, 0),
        _ => panic!("expected RRsp"),
    }
}

#[test]
fn register_encode_decode_roundtrip() {
    let subtree: Oid = "1.3.6.1.4.1.9999".parse().unwrap();
    let bytes = encode_register(&subtree, 5, 1);
    let (pdu, _) = decode_smux_pdu(&bytes).unwrap();
    match pdu {
        SmuxPdu::Register {
            subtree: s,
            priority,
            operation,
        } => {
            assert_eq!(s.to_string(), ".1.3.6.1.4.1.9999");
            assert_eq!(priority, 5);
            assert_eq!(operation, 1);
        }
        other => panic!("expected Register, got {other:?}"),
    }
}

#[test]
fn unregister_keeps_its_operation() {
    let subtree = oid("1.3.6.1.4.1.9999");
    let (pdu, _) = decode_smux_pdu(&encode_register(&subtree, 5, -1)).unwrap();
    match pdu {
        SmuxPdu::Register { operation, .. } => assert_eq!(operation, -1),
        other => panic!("expected Register, got {other:?}"),
    }
}

#[test]
fn forwarded_requests_are_no_registrations() {
    let bytes = encode_snmp_request(PduType::Get, 7, &oid("1.3.6.1.2.1.1.1.0"));
    let (pdu, _) = decode_smux_pdu(&bytes).unwrap();
    match pdu {
        SmuxPdu::Snmp(m) => {
            assert_eq!(m.pdu.pdu_type, PduType::Get);
            assert_eq!(m.pdu.request_id, 7);
            assert_eq!(m.pdu.variables[0].oid, oid("1.3.6.1.2.1.1.1.0"));
        }
        other => panic!("expected a request, got {other:?}"),
    }
}

#[test]
fn incomplete_and_unknown_pdus_are_refused() {
    assert_eq!(decode_smux_pdu(&[]), Err(SmuxError::Truncated));
    assert!(decode_smux_pdu(&[0x02, 0x01, 0x00]).is_err());
    assert_eq!(
        SmuxError::Truncated.to_string(),
        "truncated SMUX message"
    );
    assert_eq!(
        SmuxError::Io("gone".to_string()).to_string(),
        "SMUX i/o error: gone"
    );
}

fn directive(token: &str, args: &[&str], line_no: usize) -> Directive {
    Directive {
        token: token.into(),
        args: args.iter().map(|s| s.to_string()).collect(),
        rest: String::new(),
        section: None,
        source: None,
        line_no,
    }
}

#[test]
fn config_parses_smuxpeer_and_smuxsocket() {
    let directives = vec![
        directive("smuxpeer", &["secret", "1.3.6.1.4.1.9999"], 1),
        directive("smuxsocket", &["127.0.0.1:1199"], 2),
        directive("rocommunity", &["public"], 3),
    ];
    let cfg = from_config_directives(&directives);
    assert_eq!(cfg.listen_addr, "127.0.0.1:1199");
    assert_eq!(cfg.peers.len(), 1);
    assert_eq!(cfg.peers[0].password, "secret");
    assert_eq!(cfg.peers[0].subtree.to_string(), ".1.3.6.1.4.1.9999");
}

#[test]
fn server_listens_on_its_port_by_default() {
    assert_eq!(SmuxServerConfig::default().listen_addr, "0.0.0.0:199");
    assert_eq!(from_config_directives(&[]).listen_addr, "0.0.0.0:199");
}

#[test]
fn smux_server_forwards_get_to_mock_peer() {
    let mut server = SmuxServer::new_default();
    let subtree = oid("1.3.6.1.4.1.9999");
    let value_oid = oid("1.3.6.1.4.1.9999.1.0");
    let value = Value::Integer(42);

    let open = SmuxOpen {
        version: 0,
        identity: subtree.clone(),
        description: "mock".into(),
        password: "ignored".into(),
    };
    let (id, password) = server.open_session(&open.encode()).unwrap();
    assert_eq!(password, "ignored");

    let (register, _) = decode_smux_pdu(&encode_register(&subtree, 5, 1)).unwrap();
    let rrsp = SmuxRRsp {
        code: RRspCode::ReadOnly.code(),
    };
    assert_eq!(
        server.on_pdu(id, &password, register),
        SmuxAction::Reply(rrsp.encode())
    );

    let handlers = smux_handler(&server);
    assert_eq!(handlers.len(), 1);
    assert_eq!(handlers[0].root(), &subtree);

    let handler = SmuxSubtreeHandler::new(subtree.clone());
    let mut ids = RequestIds::new();
    let request_id = ids.next_request_id();
    let (owner, request) = handler
        .get_request(&server, request_id, &value_oid)
        .expect("the peer owns the subtree");
    assert_eq!(owner, id);

    let (tag, content, _) = parse_tlv(&request).unwrap();
    assert_eq!(tag, PduType::Get.tag());
    let forwarded = decode_bare_snmp_pdu(PduType::Get, content).unwrap();
    assert_eq!(forwarded.variables[0].oid, value_oid);
    let mut reply = Pdu::new(PduType::Response, forwarded.request_id);
    reply.variables.push(VarBind::new(value_oid.clone(), value.clone()));
    let bytes = encode_snmp_response(&reply);

    let (pdu, _) = decode_smux_pdu(&bytes).unwrap();
    assert_eq!(server.on_pdu(id, &password, pdu), SmuxAction::Deliver);
    assert_eq!(forwarded_value(&bytes), Some(value.clone()));
    let reading = forwarded_reading(&bytes).unwrap();
    assert_eq!(reading.oid, value_oid);
    assert_eq!(reading.value, value);

    let next = handler.get_next_request(&server, ids.next_request_id(), &subtree);
    assert_eq!(parse_tlv(&next.unwrap().1).unwrap().0, PduType::GetNext.tag());
}

#[test]
fn only_configured_peers_register() {
    let mut server = SmuxServer::new(from_config_directives(&[directive(
        "smuxpeer",
        &["secret", "1.3.6.1.4.1.9999"],
        1,
    )]));
    assert!(server.authorize("secret", &oid("1.3.6.1.4.1.9999.1")));
    assert!(!server.authorize("wrong", &oid("1.3.6.1.4.1.9999.1")));
    assert!(!server.authorize("secret", &oid("1.3.6.1.4.1")));
    let code = |r: SmuxRRsp| r.code;
    assert_eq!(
        code(server.register_subtree(0, "wrong", oid("1.3.6.1.4.1.9999"), 1)),
        -1
    );
    assert_eq!(
        code(server.register_subtree(0, "secret", oid("1.3.6.1.4.1.9999"), 0)),
        -1
    );
    assert!(server.registered_subtrees().is_empty());
    assert_eq!(
        code(server.register_subtree(0, "secret", oid("1.3.6.1.4.1.9999"), 1)),
        0
    );
    assert_eq!(server.registered_subtrees().len(), 1);
}

#[test]
fn first_pdu_opens_the_session() {
    let mut server = SmuxServer::new_default();
    assert_eq!(
        server.open_session(&SmuxClose { code: 1 }.encode()),
        Err(SmuxError::Decode(
            "expected SMUX_OPEN as first PDU".to_string()
        ))
    );
    assert!(server.peers.is_empty());
}

#[test]
fn longest_subtree_owns_an_instance() {
    let mut server = SmuxServer::new_default();
    for k in 1..4 {
        server.peers.insert(
            k,
            SmuxPeer {
                identity: oid("1.3"),
                description: String::new(),
                subtrees: Vec::new(),
            },
        );
    }
    server.subtrees.push((oid("1.3.6"), 1));
    server.subtrees.push((oid("1.3.6.1.4"), 2));
    server.subtrees.push((oid("1.3.6.1.4"), 3));
    assert_eq!(server.owner_of(&oid("1.3.6.1.4.9")), Some(2));
    assert_eq!(server.owner_of(&oid("1.3.6.2")), Some(1));
    assert_eq!(server.owner_of(&oid("1.2")), None);
    server.close_session(2);
    assert_eq!(server.owner_of(&oid("1.3.6.1.4.9")), Some(3));
    let handler = SmuxSubtreeHandler::new(oid("1.2"));
    assert!(handler.get_request(&server, 1, &oid("1.2.0")).is_none());
    assert_eq!(
        handler.set(&oid("1.2.0"), &Value::Integer(1)),
        Err(ErrorStatus::NotWritable)
    );
}

#[test]
fn empty_answers_hold_no_value() {
    let mut reply = Pdu::new(PduType::Response, 1);
    reply
        .variables
        .push(VarBind::new(oid("1.3"), Value::NoSuchInstance));
    assert_eq!(forwarded_value(&encode_snmp_response(&reply)), None);
    assert_eq!(forwarded_value(&[1, 2, 3]), None);
}

#[test]
fn frames_are_read_by_their_length() {
    assert_eq!(length_octets_to_read(0x7f), 0);
    assert_eq!(length_octets_to_read(0x82), 2);
    assert_eq!(content_octets_to_read(0x05, &[]), 5);
    assert_eq!(content_octets_to_read(0x82, &[0x01, 0x02]), 258);
}

fn server_with_one_peer(identity: &str, subtree: &str) -> SmuxServer {
    let mut server = SmuxServer::new_default();
    server.peers.insert(
        1,
        SmuxPeer {
            identity: oid(identity),
            description: "test".into(),
            subtrees: vec![oid(subtree)],
        },
    );
    server.subtrees.push((oid(subtree), 1));
    server
}

fn find(cells: &[(Oid, Value)], name: &str) -> Option<Value> {
    cells
        .iter()
        .find(|(o, _)| o.to_string() == name)
        .map(|(_, v)| v.clone())
}

#[test]
fn smux_mib_exposes_peer_count_and_subtree() {
    let server = server_with_one_peer("1.3.6.1.4.1.9999", "1.3.6.1.4.1.9999.1");
    let cells = smux_mib_cells(&server);
    assert_eq!(find(&cells, ".1.3.6.1.2.1.20.1.0"), Some(Value::Integer(1)));
    match find(&cells, ".1.3.6.1.2.1.20.3.1.1.1.1") {
        Some(Value::Oid(o)) => assert_eq!(o.to_string(), ".1.3.6.1.4.1.9999.1"),
        other => panic!("expected subtree OID, got {other:?}"),
    }
    assert_eq!(
        find(&cells, ".1.3.6.1.2.1.20.3.1.1.5.1"),
        Some(Value::Integer(1))
    );
}

#[test]
fn handler_walks_smux_mib_subtree() {
    let server = server_with_one_peer("1.3.6.1.4.1.9999", "1.3.6.1.4.1.9999.1");
    let handlers = smux_mib_handlers(&server);
    assert_eq!(handlers.len(), 1);
    let handler = &handlers[0];
    let root: Oid = "1.3.6.1.2.1.20".parse().unwrap();
    let first = handler.get_next(&root).expect("first cell");
    assert_eq!(first.oid.to_string(), ".1.3.6.1.2.1.20.1.0");
}

#[test]
fn empty_server_has_zero_peer_count() {
    let server = SmuxServer::new_default();
    let cells = smux_mib_cells(&server);
    assert_eq!(find(&cells, ".1.3.6.1.2.1.20.1.0"), Some(Value::Integer(0)));
}

#[test]
fn first_arcs_must_pack() {
    assert!(is_packable(&oid("1.3.6")));
    assert!(is_packable(&Oid::new(Vec::new())));
    assert!(is_packable(&Oid::new(vec![107374182, 15])));
    assert!(!is_packable(&Oid::new(vec![107374182, 16])));
    assert!(!is_packable(&Oid::new(vec![107374183])));
}

#[test]
fn texts_of_an_open_pdu_read_back() {
    let open = SmuxOpen {
        version: 0,
        identity: oid("1.3.6"),
        description: "gr\u{fc}n".into(),
        password: String::new(),
    };
    let (pdu, _) = decode_smux_pdu(&open.encode()).unwrap();
    assert_eq!(pdu, SmuxPdu::Open(open));
}
