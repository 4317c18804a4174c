use netsnmp_agent::any_handler::AnyHandler;
use netsnmp_agent::config::{parse_str, Directive};
use netsnmp_agent::handler::MibHandler;
use netsnmp_agent::mibgroup::notify::{notify_handlers, udp_address};
use netsnmp_agent::notify::{
    normalize_host_port, notification_variables, notifier_engine, parse_auth_proto, parse_priv_proto, AuthProtocol,
    EngineParams, NotificationOriginator, NotifyConfig, NotifyEntry, NotifyType, Outgoing,
    PrivProtocol, SecurityLevel, TargetAddr, TargetParams, UsmUser, COLD_START_OID,
    WARM_START_OID,
};
use netsnmp_agent::oid::Oid;
use netsnmp_agent::pdu::{ErrorStatus, Pdu, PduType, Version};
use netsnmp_agent::proxy::{register_proxy_mibs, ProxyForwarder, ProxySession, V3Config};
use netsnmp_agent::registry::Registry;
use netsnmp_agent::scalar::{FnHandler, ScalarHandler};
use netsnmp_agent::value::{Value, VarBind};

#[test]
fn from_config_directives_parses_trap2sink() {
    let dirs = parse_str("trap2sink 127.0.0.1 public\n");
    let config = NotifyConfig::from_config_directives(&dirs);
    assert_eq!(config.targets().len(), 1);
    assert_eq!(config.params().len(), 1);
    assert_eq!(config.notifies().len(), 1);
    let t = &config.targets()[0];
    assert_eq!(t.address, "127.0.0.1:162");
    assert_eq!(t.transport, "udp");
    let p = &config.params()[0];
    assert_eq!(p.mp_model, 1);
    assert_eq!(p.security_model, 2);
    assert_eq!(p.security_name, b"public");
    let n = &config.notifies()[0];
    assert_eq!(n.typ, NotifyType::Trap);
}

#[test]
fn from_config_directives_parses_trapsink_v1() {
    let dirs = parse_str("trapsink 127.0.0.1 public 1162\n");
    let config = NotifyConfig::from_config_directives(&dirs);
    let t = &config.targets()[0];
    assert_eq!(t.address, "127.0.0.1:1162");
    let p = &config.params()[0];
    assert_eq!(p.mp_model, 0);
    assert_eq!(p.security_model, 1);
    let n = &config.notifies()[0];
    assert_eq!(n.typ, NotifyType::Trap);
}

#[test]
fn from_config_directives_parses_informsink() {
    let dirs = parse_str("informsink 127.0.0.1 public\n");
    let config = NotifyConfig::from_config_directives(&dirs);
    let n = &config.notifies()[0];
    assert_eq!(n.typ, NotifyType::Inform);
}

#[test]
fn from_config_directives_parses_trapsess_v3() {
    let dirs = parse_str(
        "trapsess -v 3 -u alice -a SHA -A authpass -x AES -X privpass -l authPriv 127.0.0.1\n",
    );
    let config = NotifyConfig::from_config_directives(&dirs);
    assert_eq!(config.targets().len(), 1);
    let p = &config.params()[0];
    assert_eq!(p.mp_model, 3);
    assert_eq!(p.security_model, 3);
    assert_eq!(p.security_name, b"alice");
    assert_eq!(p.security_level, 3);
    let user = p.usm_user.as_ref().expect("usm user");
    assert_eq!(user.name, "alice");
    assert_eq!(user.security_level(), SecurityLevel::AuthPriv);
}

#[test]
fn from_config_directives_parses_trapsess_v2c() {
    let dirs = parse_str("trapsess -v 2c -c secret 127.0.0.1 1162\n");
    let config = NotifyConfig::from_config_directives(&dirs);
    let p = &config.params()[0];
    assert_eq!(p.mp_model, 1);
    assert_eq!(p.security_name, b"secret");
    assert!(p.usm_user.is_none());
}

#[test]
fn trapsess_without_user_makes_no_rows() {
    let dirs = parse_str("trapsess -v 3 127.0.0.1\n");
    let config = NotifyConfig::from_config_directives(&dirs);
    assert!(!config.has_targets());
    assert!(config.notifies().is_empty());
}

fn one_row(name: &str, typ: NotifyType, params: TargetParams, address: &str) -> NotifyConfig {
    let mut config = NotifyConfig::new();
    config.add_params(params);
    config.add_target(TargetAddr {
        name: name.to_string(),
        transport: "udp".to_string(),
        address: address.to_string(),
        timeout_ms: 2000,
        retries: 1,
        params_name: name.to_string(),
    });
    config.add_notify(NotifyEntry {
        name: name.to_string(),
        tag: name.to_string(),
        typ,
        params_name: name.to_string(),
    });
    config
}

fn community_params(name: &str, mp_model: i32) -> TargetParams {
    TargetParams {
        name: name.to_string(),
        mp_model,
        security_model: 2,
        security_name: b"public".to_vec(),
        security_level: 0,
        usm_user: None,
    }
}

#[test]
fn send_delivers_v2c_trap_to_receiver() {
    let config = one_row("t", NotifyType::Trap, community_params("t", 1), "127.0.0.1:1");
    let originator = NotificationOriginator::new(config, notifier_engine(None));
    let expected: Oid = "1.3.6.1.6.3.1.1.5.1".parse().unwrap();
    let sent = originator.send(1239, &expected, &[]);
    assert_eq!(sent.len(), 1);
    assert_eq!(sent[0].address, "127.0.0.1:1");
    assert_eq!(sent[0].timeout_ms, 2000);
    assert_eq!(sent[0].retries, 1);
    match &sent[0].message {
        Outgoing::Community {
            version,
            community,
            inform,
            trap_oid,
            sys_uptime,
            varbinds,
        } => {
            assert_eq!(*version, Version::V2c);
            assert_eq!(community, b"public");
            assert!(!inform);
            assert_eq!(trap_oid, &expected);
            assert_eq!(*sys_uptime, 123);
            assert!(varbinds.is_empty());
        }
        other => panic!("expected a community trap, got {other:?}"),
    }
}

#[test]
fn v1_traps_are_enterprise_specific() {
    let config = one_row("t", NotifyType::Trap, community_params("t", 0), "127.0.0.1:1");
    let originator = NotificationOriginator::new(config, notifier_engine(None));
    match &originator.send_warm_start(0)[0].message {
        Outgoing::TrapV1 {
            enterprise,
            generic_trap,
            specific_trap,
            uptime,
            ..
        } => {
            assert_eq!(enterprise.to_string(), ".1.3.6.1.6.3.1.1.5");
            assert_eq!(*generic_trap, 6);
            assert_eq!(*specific_trap, 2);
            assert_eq!(*uptime, 0);
        }
        other => panic!("expected a version 1 trap, got {other:?}"),
    }
    match &originator.send_cold_start(0)[0].message {
        Outgoing::TrapV1 { specific_trap, .. } => assert_eq!(*specific_trap, 1),
        other => panic!("expected a version 1 trap, got {other:?}"),
    }
}

#[test]
fn v3_notifications_need_a_user() {
    let mut params = community_params("t", 3);
    let engine = EngineParams {
        engine_id: vec![1, 2],
        engine_boots: 3,
        engine_time: 4,
    };
    let config = one_row("t", NotifyType::Inform, params, "h:1");
    let originator = NotificationOriginator::new(config, notifier_engine(Some(&engine)));
    assert!(matches!(
        originator.send_cold_start(0)[0].message,
        Outgoing::Unsendable { .. }
    ));
    params = community_params("t", 3);
    params.usm_user = Some(UsmUser {
        name: "alice".to_string(),
        auth: None,
        privacy: None,
    });
    let config = one_row("t", NotifyType::Inform, params, "h:1");
    let originator = NotificationOriginator::new(config, notifier_engine(Some(&engine)));
    match &originator.send_cold_start(1239)[0].message {
        Outgoing::V3 {
            user,
            engine: e,
            inform,
            sys_uptime,
            varbinds,
            ..
        } => {
            assert_eq!(*sys_uptime, 123);
            assert!(varbinds.is_empty());
            assert_eq!(user.name, "alice");
            assert_eq!(e.engine_id, engine.engine_id);
            assert!(*inform);
        }
        other => panic!("expected a version 3 message, got {other:?}"),
    }
}

#[test]
fn nothing_is_sent_without_targets() {
    let originator = NotificationOriginator::new(NotifyConfig::default(), notifier_engine(None));
    assert!(!originator.has_targets());
    assert!(originator.send_cold_start(5).is_empty());
}

#[test]
fn hosts_get_a_port() {
    assert_eq!(normalize_host_port("udp:h", None), "h:162");
    assert_eq!(normalize_host_port("h:7", Some("8")), "h:7");
    assert_eq!(normalize_host_port("h", Some("8")), "h:8");
}

#[test]
fn protocols_are_named() {
    assert_eq!(parse_auth_proto("md5"), Some(AuthProtocol::HmacMd5));
    assert_eq!(parse_auth_proto("SHA"), Some(AuthProtocol::HmacSha1));
    assert_eq!(parse_auth_proto("none"), None);
    assert_eq!(parse_priv_proto("AES"), Some(PrivProtocol::AesCfb128));
    assert_eq!(parse_priv_proto("rot13"), None);
}

fn sample_config() -> NotifyConfig {
    let mut config = NotifyConfig::new();
    config.add_params(community_params("t1", 1));
    config.add_target(TargetAddr {
        name: "t1".to_string(),
        transport: "udp".to_string(),
        address: "127.0.0.1:162".to_string(),
        timeout_ms: 5000,
        retries: 2,
        params_name: "t1".to_string(),
    });
    config.add_notify(NotifyEntry {
        name: "t1".to_string(),
        tag: "t1".to_string(),
        typ: NotifyType::Trap,
        params_name: "t1".to_string(),
    });
    config
}

#[test]
fn target_addr_table_exposes_row() {
    let config = sample_config();
    let handlers = notify_handlers(&config);
    let addr_handler = &handlers[0];
    let oid: Oid = "1.3.6.1.6.3.12.1.2.1.3.2.116.49".parse().unwrap();
    let got = addr_handler.get(&oid);
    assert_eq!(got, Some(Value::OctetString(vec![127, 0, 0, 1, 0, 162])));
}

#[test]
fn unreadable_addresses_are_empty() {
    assert_eq!(udp_address("10.1.2.3:258"), vec![10, 1, 2, 3, 1, 2]);
    assert!(udp_address("nowhere").is_empty());
}

#[test]
fn target_params_table_exposes_security_name() {
    let config = sample_config();
    let handlers = notify_handlers(&config);
    let params_handler = &handlers[1];
    let oid: Oid = "1.3.6.1.6.3.12.1.3.1.4.2.116.49".parse().unwrap();
    let got = params_handler.get(&oid);
    assert_eq!(got, Some(Value::OctetString(b"public".to_vec())));
}

#[test]
fn notify_table_exposes_type() {
    let config = sample_config();
    let handlers = notify_handlers(&config);
    let notify_handler = &handlers[2];
    let oid: Oid = "1.3.6.1.6.3.13.1.1.1.3.2.116.49".parse().unwrap();
    let got = notify_handler.get(&oid);
    assert_eq!(got, Some(Value::Integer(1)));
}

#[test]
fn getnext_from_table_root_lands_on_first_cell() {
    let config = sample_config();
    let handlers = notify_handlers(&config);
    let notify_handler = &handlers[2];
    let root: Oid = "1.3.6.1.6.3.13.1.1.1".parse().unwrap();
    let first = notify_handler.get_next(&root).expect("first successor");
    assert!(first.oid > root);
}

fn forwarder() -> ProxyForwarder {
    ProxyForwarder::new(
        "1.3.6.1.4.1.9999".parse().unwrap(),
        "127.0.0.1:2161".to_string(),
        b"public".to_vec(),
    )
}

fn target_answer(pdu_type: PduType, oid: &Oid) -> Vec<VarBind> {
    let mut reg: Registry<AnyHandler<FnHandler>> = Registry::new();
    reg.register(AnyHandler::Scalar(ScalarHandler::new(
        "1.3.6.1.4.1.9999".parse().unwrap(),
        Value::OctetString(b"proxied-value".to_vec()),
    )));
    reg.process(&Pdu::new(pdu_type, 1).with_null_var(oid.clone()))
        .variables
}

#[test]
fn proxy_get_forwards_to_target() {
    let root: Oid = "1.3.6.1.4.1.9999".parse().unwrap();
    let reply = target_answer(PduType::Get, &root.child(0));
    let value = ProxyForwarder::forward_get(Some(reply[0].value.clone()));
    assert_eq!(value, Some(Value::OctetString(b"proxied-value".to_vec())));
    match forwarder().session() {
        ProxySession::Community {
            version,
            community,
            timeout_ms,
            retries,
        } => {
            assert_eq!(version, Version::V2c);
            assert_eq!(community, b"public");
            assert_eq!((timeout_ms, retries), (2000, 1));
        }
        other => panic!("expected a community session, got {other:?}"),
    }
}

#[test]
fn proxy_get_next_forwards_to_target() {
    let root: Oid = "1.3.6.1.4.1.9999".parse().unwrap();
    let reply = target_answer(PduType::GetNext, &root);
    let reading = ProxyForwarder::forward_get_next(Some(reply)).expect("a successor");
    assert_eq!(reading.oid, root.child(0));
    assert_eq!(reading.value, Value::OctetString(b"proxied-value".to_vec()));
    assert!(ProxyForwarder::forward_get_next(Some(Vec::new())).is_none());
}

#[test]
fn proxy_get_returns_none_for_missing_instance() {
    let root: Oid = "1.3.6.1.4.1.9999".parse().unwrap();
    let reply = target_answer(PduType::Get, &root.child(5));
    assert!(ProxyForwarder::forward_get(Some(reply[0].value.clone())).is_none());
}

#[test]
fn proxy_get_returns_none_for_unreachable_target() {
    assert!(ProxyForwarder::forward_get(None).is_none());
    assert!(ProxyForwarder::forward_get_next(None).is_none());
    assert_eq!(ProxyForwarder::forward_set(false), Err(ErrorStatus::GenErr));
    assert_eq!(ProxyForwarder::forward_set(true), Ok(()));
}

#[test]
fn check_conflicts_detects_overlap() {
    let existing: Vec<Oid> = vec!["1.3.6.1.4.1.9999".parse().unwrap()];
    let new_root: Oid = "1.3.6.1.4.1".parse().unwrap();
    assert!(ProxyForwarder::check_conflicts(&existing, &new_root).is_err());
    let new_root: Oid = "1.3.6.1.4.1.9999.1".parse().unwrap();
    assert_eq!(
        ProxyForwarder::check_conflicts(&existing, &new_root),
        Err(
            "proxy subtree .1.3.6.1.4.1.9999.1 overlaps existing registration .1.3.6.1.4.1.9999"
                .to_string()
        )
    );
}

#[test]
fn check_conflicts_passes_for_disjoint() {
    let existing: Vec<Oid> = vec!["1.3.6.1.4.1.9999".parse().unwrap()];
    let new_root: Oid = "1.3.6.1.4.1.8888".parse().unwrap();
    assert!(ProxyForwarder::check_conflicts(&existing, &new_root).is_ok());
}

fn directive(token: &str, args: &[&str], line_no: usize) -> Directive {
    Directive {
        token: token.to_string(),
        args: args.iter().map(|s| s.to_string()).collect(),
        rest: String::new(),
        section: None,
        source: None,
        line_no,
    }
}

#[test]
fn from_directives_parses_proxy_lines() {
    let directives = vec![
        directive("proxy", &["public", "127.0.0.1:2161", "1.3.6.1.4.1.9999"], 0),
        directive("proxy", &["-Cn", "ctx", "private", "127.0.0.1:3161"], 1),
        directive("rocommunity", &["public"], 2),
    ];
    let proxies = ProxyForwarder::from_directives(&directives);
    assert_eq!(proxies.len(), 2);
    assert_eq!(proxies[0].root().to_string(), ".1.3.6.1.4.1.9999");
    assert_eq!(proxies[0].target_addr(), "127.0.0.1:2161");
    assert_eq!(proxies[1].root().to_string(), ".1.3.6.1");
    assert_eq!(proxies[1].context.as_deref(), Some("ctx"));
}

#[test]
fn proxies_are_built_step_by_step() {
    let p = forwarder()
        .with_version(Version::V1)
        .with_context("c".to_string());
    assert_eq!(p.version, Version::V1);
    assert_eq!(p.context.as_deref(), Some("c"));
    let p = p.with_v3(V3Config {
        user: UsmUser {
            name: "u".to_string(),
            auth: None,
            privacy: None,
        },
        timeout_ms: 1,
        retries: 0,
    });
    assert!(matches!(p.session(), ProxySession::User(c) if c.user.name == "u"));
    let o: Oid = "1.3".parse().unwrap();
    assert_eq!(
        ProxyForwarder::set_request(&o, &Value::Integer(1)),
        vec![VarBind::new(o, Value::Integer(1))]
    );
}

#[test]
fn proxied_subtrees_are_registered() {
    let mut reg: Registry<ScalarHandler> = Registry::new();
    let proxies = vec![ScalarHandler::new("1.3.5".parse().unwrap(), Value::Integer(5))];
    register_proxy_mibs(&mut reg, proxies);
    let resp = reg.process(&Pdu::new(PduType::Get, 1).with_null_var("1.3.5.0".parse().unwrap()));
    assert_eq!(resp.variables[0].value, Value::Integer(5));
}

#[test]
fn start_notifications_have_their_names() {
    assert_eq!(
        Oid::new(COLD_START_OID.to_vec()).to_string(),
        ".1.3.6.1.6.3.1.1.5.1"
    );
    assert_eq!(
        Oid::new(WARM_START_OID.to_vec()).to_string(),
        ".1.3.6.1.6.3.1.1.5.2"
    );
}

#[test]
fn each_line_reaches_its_own_target() {
    let dirs = parse_str("trapsink a\ntrap2sink b secret\ntrapsess -v 2c -c c c 99\n");
    let config = NotifyConfig::from_config_directives(&dirs);
    let originator = NotificationOriginator::new(config, notifier_engine(None));
    let sent = originator.send_warm_start(0);
    let addresses: Vec<&str> = sent.iter().map(|d| d.address.as_str()).collect();
    assert_eq!(addresses, vec!["a:162", "b:162", "c:99"]);
    let names: Vec<&str> = sent.iter().map(|d| d.notify.as_str()).collect();
    assert_eq!(names, vec!["sink1", "sink2", "sess3"]);
}

#[test]
fn receivers_get_the_uptime_and_the_notification_first() {
    let oid: Oid = "1.3.6.1.6.3.1.1.5.1".parse().unwrap();
    let extra = [VarBind::new("1.3.1".parse().unwrap(), Value::Integer(1))];
    assert_eq!(
        notification_variables(42, &oid, &extra),
        vec![
            VarBind::new("1.3.6.1.2.1.1.3.0".parse().unwrap(), Value::TimeTicks(42)),
            VarBind::new("1.3.6.1.6.3.1.1.4.1.0".parse().unwrap(), Value::Oid(oid)),
            VarBind::new("1.3.1".parse().unwrap(), Value::Integer(1)),
        ]
    );
}
