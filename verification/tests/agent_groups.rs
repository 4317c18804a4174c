use netsnmp_agent::any_handler::AnyHandler;
use netsnmp_agent::cells::string_index;
use netsnmp_agent::handler::MibHandler;
use netsnmp_agent::mibgroup::bridge::{bridge_cells, bridge_handlers};
use netsnmp_agent::mibgroup::etherlike::{
    dot3_stats_cells, etherlike_handlers, interface_rows, Dot3StatsRow,
};
use netsnmp_agent::mibgroup::mta::mta_handlers;
use netsnmp_agent::mibgroup::netsnmp_agent::{
    decode_string_index, netsnmp_agent_handlers, ns_cache_handlers, ns_debug_handlers,
    ns_logging_handlers, ns_module_handlers, ns_transaction_handlers, ns_vacm_access_handlers,
    NsCacheState, NsModuleSnapshot, Ttl,
};
use netsnmp_agent::mibgroup::netsnmp_system::netsnmp_system_handlers;
use netsnmp_agent::mibgroup::reporting::{
    count_set, served_counters, served_mpd, served_sysor, served_usm, update_table,
};
use netsnmp_agent::mibgroup::rmon::rmon_handlers;
use netsnmp_agent::mibgroup::sctp::{sctp_handlers, sctp_scalar_cells};
use netsnmp_agent::mibgroup::set_serial::{
    increment_set_serial, integer_value, set_serial_no_handler, set_serial_no_handler_with,
    SerialCounter, SetSerialNoHandler,
};
use netsnmp_agent::mibgroup::snmp_framework::{snmp_framework_handlers, EngineSnapshot};
use netsnmp_agent::mibgroup::snmp_mib::{snmp_mib_handlers, SnmpCounter, SnmpCounters};
use netsnmp_agent::mibgroup::snmp_mpd::{snmp_mpd_handler, snmp_mpd_handler_with, SnmpMpdStats};
use netsnmp_agent::mibgroup::sysor::{sysor_handler, SysOrTable};
use netsnmp_agent::mibgroup::system::{
    format_sysdescr, host_name, system_description, system_handlers, SystemFacts,
};
use netsnmp_agent::mibgroup::tunnel::tunnel_handlers;
use netsnmp_agent::mibgroup::usm_stats::{usm_stats_handler, UsmStat, UsmStats};
use netsnmp_agent::mibgroup::{
    register_framework_mibs, register_mib2_mibs, FrameworkMibConfig, KernelTexts,
};
use netsnmp_agent::oid::Oid;
use netsnmp_agent::pdu::{ErrorStatus, Pdu, PduType};
use netsnmp_agent::registry::Registry;
use netsnmp_agent::scalar::{FnHandler, ScalarHandler};
use netsnmp_agent::value::Value;

fn find(cells: &[(Oid, Value)], name: &str) -> Option<Value> {
    cells
        .iter()
        .find(|(o, _)| o.to_string() == name)
        .map(|(_, v)| v.clone())
}

#[test]
fn bridge_tables_are_empty_but_walkable() {
    let handlers = bridge_handlers();
    assert_eq!(handlers.len(), 2);
    assert!(bridge_cells().is_empty());
    for h in &handlers {
        let root = h.root().clone();
        assert!(h.get_next(&root).is_none());
    }
}

#[test]
fn handlers_rooted_at_correct_subtrees() {
    let handlers = bridge_handlers();
    assert_eq!(handlers[0].root().to_string(), ".1.3.6.1.2.1.17.1.4");
    assert_eq!(handlers[1].root().to_string(), ".1.3.6.1.2.1.17.4.3");
}

#[test]
fn cells_use_correct_column_numbers() {
    let rows = vec![Dot3StatsRow { if_index: 2 }];
    let cells = dot3_stats_cells(&rows);
    assert!(find(&cells, ".1.3.6.1.2.1.10.7.2.1.1.1.2").is_some());
    assert_eq!(
        find(&cells, ".1.3.6.1.2.1.10.7.2.1.1.3.2"),
        Some(Value::Counter32(0))
    );
    assert_eq!(
        find(&cells, ".1.3.6.1.2.1.10.7.2.1.1.10.2"),
        Some(Value::Counter32(0))
    );
    assert_eq!(
        find(&cells, ".1.3.6.1.2.1.10.7.2.1.1.17.2"),
        Some(Value::Oid(Oid::new(vec![0, 0])))
    );
}

const DEV_SAMPLE: &str = "Inter-|   Receive\n face |bytes\n    lo: 1 2\n  eth0: 3 4\nwlan0: 5\n ens3: 6\n";

#[test]
fn handler_is_walkable_without_panic() {
    let handlers = etherlike_handlers("");
    assert_eq!(handlers.len(), 1);
    let root: Oid = "1.3.6.1.2.1.10.7.2".parse().unwrap();
    assert!(handlers[0].get_next(&root).is_none());
    assert!(etherlike_handlers(DEV_SAMPLE)[0].get_next(&root).is_some());
}

#[test]
fn ethernet_interfaces_keep_their_line_number() {
    let rows = interface_rows(DEV_SAMPLE);
    assert_eq!(
        rows,
        vec![Dot3StatsRow { if_index: 2 }, Dot3StatsRow { if_index: 4 }]
    );
}

#[test]
fn getnext_walks_columns_in_order() {
    let rows = vec![Dot3StatsRow { if_index: 1 }];
    let cells = dot3_stats_cells(&rows);
    let mut sorted = cells.clone();
    sorted.sort_by(|a, b| a.0.cmp(&b.0));
    assert_eq!(
        cells.iter().map(|(o, _)| o.clone()).collect::<Vec<_>>(),
        sorted.iter().map(|(o, _)| o.clone()).collect::<Vec<_>>()
    );
    assert_eq!(cells[0].0.to_string(), ".1.3.6.1.2.1.10.7.2.1.1.1.1");
}

#[test]
fn mta_table_is_empty_but_walkable() {
    let handlers = mta_handlers();
    assert_eq!(handlers.len(), 1);
    let root = handlers[0].root().clone();
    assert!(handlers[0].get_next(&root).is_none());
}

#[test]
fn handler_rooted_at_mta_table() {
    let handlers = mta_handlers();
    assert_eq!(handlers[0].root().to_string(), ".1.3.6.1.2.1.28.1.1");
}

#[test]
fn rmon_tables_are_empty_but_walkable() {
    let handlers = rmon_handlers();
    assert_eq!(handlers.len(), 2);
    for h in &handlers {
        let root = h.root().clone();
        assert!(h.get_next(&root).is_none());
    }
}

#[test]
fn handlers_rooted_at_alarm_and_event_tables() {
    let handlers = rmon_handlers();
    assert_eq!(handlers[0].root().to_string(), ".1.3.6.1.2.1.16.3.1");
    assert_eq!(handlers[1].root().to_string(), ".1.3.6.1.2.1.16.9.1");
}

#[test]
fn tunnel_table_is_empty_but_walkable() {
    let handlers = tunnel_handlers();
    assert_eq!(handlers.len(), 1);
    let root = handlers[0].root().clone();
    assert!(handlers[0].get_next(&root).is_none());
}

#[test]
fn handler_rooted_at_tunnel_if_table() {
    let handlers = tunnel_handlers();
    assert_eq!(handlers[0].root().to_string(), ".1.3.6.1.2.1.10.131.1.1");
}

#[test]
fn scalars_report_zero_or_unlimited() {
    let cells = sctp_scalar_cells();
    assert_eq!(find(&cells, ".1.3.6.1.2.1.105.1.0"), Some(Value::Integer(1)));
    assert_eq!(find(&cells, ".1.3.6.1.2.1.105.2.0"), Some(Value::Integer(0)));
    assert_eq!(
        find(&cells, ".1.3.6.1.2.1.105.7.0"),
        Some(Value::Gauge32(u32::MAX))
    );
}

#[test]
fn handlers_rooted_correctly() {
    let handlers = sctp_handlers();
    assert_eq!(handlers.len(), 2);
    assert_eq!(handlers[0].root().to_string(), ".1.3.6.1.2.1.105");
    assert_eq!(handlers[1].root().to_string(), ".1.3.6.1.2.1.105.3.1");
}

#[test]
fn getnext_walks_scalars_in_order() {
    let handlers = sctp_handlers();
    let root: Oid = "1.3.6.1.2.1.105".parse().unwrap();
    let first = handlers[0].get_next(&root).expect("first scalar");
    assert_eq!(first.oid.to_string(), ".1.3.6.1.2.1.105.1.0");
    let assoc_root: Oid = "1.3.6.1.2.1.105.3.1".parse().unwrap();
    assert!(handlers[1].get_next(&assoc_root).is_none());
}

const TV_TRUE: i64 = 1;
const TV_FALSE: i64 = 2;
const STATUS_ACTIVE: i64 = 1;

#[test]
fn cache_state_default_enabled_and_set_get_ttl() {
    let mut state = NsCacheState::new();
    assert!(state.enabled());
    state.set_enabled(false);
    assert!(!state.enabled());

    let dflt = Ttl::from_secs(60);
    assert_eq!(state.ttl("foo", dflt), dflt);

    state.set_ttl("foo", Ttl::from_secs(10));
    assert_eq!(state.ttl("foo", dflt), Ttl::from_secs(10));
    assert_eq!(state.ttl("bar", dflt), dflt);

    assert_eq!(state.remove_ttl("foo"), Some(Ttl::from_secs(10)));
    assert_eq!(state.ttl("foo", dflt), dflt);
}

#[test]
fn cache_state_modules_sorted() {
    let mut state = NsCacheState::new();
    state.set_ttl("zebra", Ttl::from_secs(1));
    state.set_ttl("alpha", Ttl::from_secs(2));
    state.set_ttl("mid", Ttl::from_secs(3));
    let m = state.modules();
    assert_eq!(
        m.iter().map(|(n, _)| n.as_str()).collect::<Vec<_>>(),
        vec!["alpha", "mid", "zebra"]
    );
}

#[test]
fn cache_state_replaces_a_module() {
    let mut state = NsCacheState::with_enabled(false);
    state.set_ttl("m", Ttl::from_secs(1));
    state.set_ttl("m", Ttl::from_secs(2));
    assert_eq!(state.modules().len(), 1);
    assert_eq!(state.ttl("m", Ttl::from_secs(9)), Ttl::from_secs(2));
    assert_eq!(state.remove_ttl("other"), None);
}

#[test]
fn ns_cache_enabled_scalar_reflects_state() {
    let mut state = NsCacheState::new();
    let cells = state.cells();
    let enabled_oid: Oid = "1.3.6.1.4.1.8072.1.6.1.0".parse().unwrap();
    let v = cells
        .iter()
        .find(|(o, _)| o == &enabled_oid)
        .map(|(_, v)| v.clone());
    assert_eq!(v, Some(Value::Integer(TV_TRUE)));

    state.set_enabled(false);
    let cells = state.cells();
    let v = cells
        .iter()
        .find(|(o, _)| o == &enabled_oid)
        .map(|(_, v)| v.clone());
    assert_eq!(v, Some(Value::Integer(TV_FALSE)));
}

fn timeout_oid(name: &[u8]) -> Oid {
    let mut p = vec![1, 3, 6, 1, 4, 1, 8072, 1, 6, 2, 1, 2];
    p.extend(string_index(name));
    Oid::new(p)
}

fn status_oid(name: &[u8]) -> Oid {
    let mut p = vec![1, 3, 6, 1, 4, 1, 8072, 1, 6, 2, 1, 3];
    p.extend(string_index(name));
    Oid::new(p)
}

#[test]
fn ns_cache_table_cells_match_layout() {
    let mut state = NsCacheState::new();
    state.set_ttl("ifTable", Ttl::from_secs(30));
    let cells = state.cells();
    let timeout = timeout_oid(b"ifTable");
    let v = cells
        .iter()
        .find(|(o, _)| o == &timeout)
        .map(|(_, v)| v.clone());
    assert_eq!(v, Some(Value::Integer(30)));
    let status = status_oid(b"ifTable");
    let v = cells
        .iter()
        .find(|(o, _)| o == &status)
        .map(|(_, v)| v.clone());
    assert_eq!(v, Some(Value::Integer(STATUS_ACTIVE)));
}

#[test]
fn ns_cache_handler_serves_cells_and_getnext() {
    let mut state = NsCacheState::new();
    state.set_ttl("alpha", Ttl::from_secs(5));
    state.set_ttl("beta", Ttl::from_secs(9));
    let handlers = ns_cache_handlers(state);
    assert_eq!(handlers.len(), 1);
    let h = &handlers[0];

    let enabled_oid: Oid = "1.3.6.1.4.1.8072.1.6.1.0".parse().unwrap();
    assert_eq!(h.get(&enabled_oid), Some(Value::Integer(TV_TRUE)));

    let root: Oid = "1.3.6.1.4.1.8072.1.6".parse().unwrap();
    let first = h.get_next(&root).expect("first successor");
    assert!(first.oid > root);
    assert_eq!(first.oid, enabled_oid);

    let next = h.get_next(&enabled_oid).expect("after enabled");
    let beta_timeout_oid = timeout_oid(b"beta");
    assert_eq!(next.oid, beta_timeout_oid);
    assert_eq!(next.value, Value::Integer(9));

    let after_beta = h.get_next(&beta_timeout_oid).expect("after beta");
    assert_eq!(after_beta.oid, timeout_oid(b"alpha"));
    assert_eq!(after_beta.value, Value::Integer(5));
}

#[test]
fn set_ns_cache_timeout_updates_ttl() {
    let mut state = NsCacheState::new();
    state.set_ttl("mib", Ttl::from_secs(10));
    let mut handlers = ns_cache_handlers(state);
    let h = &mut handlers[0];
    let timeout = timeout_oid(b"mib");

    h.prepare_set(&timeout, &Value::Integer(30)).unwrap();
    h.commit_set(&timeout, &Value::Integer(30)).unwrap();

    assert_eq!(
        h.cache().ttl("mib", Ttl::from_secs(99)),
        Ttl::from_secs(30)
    );
    assert_eq!(h.get(&timeout), Some(Value::Integer(30)));
}

#[test]
fn set_ns_cache_timeout_rejects_wrong_column_and_type() {
    let mut state = NsCacheState::new();
    state.set_ttl("mib", Ttl::from_secs(10));
    let mut handlers = ns_cache_handlers(state);
    let h = &mut handlers[0];

    let err = h
        .prepare_set(&status_oid(b"mib"), &Value::Integer(1))
        .unwrap_err();
    assert_eq!(err, ErrorStatus::NotWritable);

    let enabled_oid: Oid = "1.3.6.1.4.1.8072.1.6.1.0".parse().unwrap();
    let err = h
        .prepare_set(&enabled_oid, &Value::Integer(TV_TRUE))
        .unwrap_err();
    assert_eq!(err, ErrorStatus::NotWritable);

    let err = h
        .prepare_set(&timeout_oid(b"mib"), &Value::OctetString(b"x".to_vec()))
        .unwrap_err();
    assert_eq!(err, ErrorStatus::WrongType);
    let err = h
        .prepare_set(&timeout_oid(b"mib"), &Value::Integer(-1))
        .unwrap_err();
    assert_eq!(err, ErrorStatus::WrongType);
}

#[test]
fn string_indexes_read_back() {
    assert_eq!(decode_string_index(&string_index(b"mib")), Some("mib".to_string()));
    assert_eq!(decode_string_index(&[]), None);
    assert_eq!(decode_string_index(&[2, 65]), None);
    assert_eq!(decode_string_index(&[1, 255]), None);
}

#[test]
fn ns_module_table_lists_registered_handlers() {
    let h1 = ScalarHandler::new(
        "1.3.6.1.2.1.1".parse().unwrap(),
        Value::OctetString(b"sys".to_vec()),
    );
    let h2 = ScalarHandler::new(
        "1.3.6.1.2.1.2".parse().unwrap(),
        Value::OctetString(b"if".to_vec()),
    );
    let snapshot = NsModuleSnapshot::new(&[h1, h2]);
    let handlers = ns_module_handlers(&snapshot);
    assert_eq!(handlers.len(), 1);
    let h = &handlers[0];

    let oid1: Oid = "1.3.6.1.4.1.8072.1.5.1.1.1".parse().unwrap();
    assert_eq!(
        h.get(&oid1),
        Some(Value::Oid("1.3.6.1.2.1.1".parse().unwrap()))
    );
    let name2: Oid = "1.3.6.1.4.1.8072.1.5.1.2.2".parse().unwrap();
    assert_eq!(
        h.get(&name2),
        Some(Value::OctetString(b".1.3.6.1.2.1.2".to_vec()))
    );

    let root: Oid = "1.3.6.1.4.1.8072.1.5.1".parse().unwrap();
    let first = h.get_next(&root).expect("first row");
    assert_eq!(first.oid, oid1);
}

#[test]
fn ns_module_table_empty_when_no_handlers() {
    let none: [ScalarHandler; 0] = [];
    let snapshot = NsModuleSnapshot::new(&none);
    let handlers = ns_module_handlers(&snapshot);
    let h = &handlers[0];
    let root: Oid = "1.3.6.1.4.1.8072.1.5.1".parse().unwrap();
    assert!(h.get_next(&root).is_none());
}

#[test]
fn ns_debug_scalars_return_defaults() {
    let handlers = ns_debug_handlers();
    let h = &handlers[0];
    let cfg: Oid = "1.3.6.1.4.1.8072.1.3.1.0".parse().unwrap();
    let v = h.get(&cfg).expect("config debug value");
    assert!(matches!(v, Value::OctetString(_)));

    let h2 = &handlers[1];
    let en: Oid = "1.3.6.1.4.1.8072.1.3.2.0".parse().unwrap();
    assert_eq!(h2.get(&en), Some(Value::Integer(TV_FALSE)));
}

#[test]
fn ns_logging_scalars_return_defaults() {
    let handlers = ns_logging_handlers();
    let h = &handlers[0];
    let cfg: Oid = "1.3.6.1.4.1.8072.1.7.1.0".parse().unwrap();
    let v = h.get(&cfg).expect("config logging value");
    assert!(matches!(v, Value::OctetString(_)));
}

#[test]
fn ns_transaction_and_vacm_tables_empty_but_walkable() {
    let tx = ns_transaction_handlers();
    let vacm = ns_vacm_access_handlers();
    let tx_root: Oid = "1.3.6.1.4.1.8072.1.8.1".parse().unwrap();
    let vacm_root: Oid = "1.3.6.1.4.1.8072.1.9.1".parse().unwrap();
    assert_eq!(tx[0].root(), &tx_root);
    assert!(tx[0].get_next(&tx_root).is_none());
    assert!(vacm[0].get_next(&vacm_root).is_none());
}

#[test]
fn walk_over_ns_agent_root_returns_expected_suboids() {
    let ns_agent_root: &[u32] = &[1, 3, 6, 1, 4, 1, 8072, 1];
    let mut state = NsCacheState::new();
    state.set_ttl("alpha", Ttl::from_secs(5));
    let h1 = ScalarHandler::new(
        "1.3.6.1.2.1.1".parse().unwrap(),
        Value::OctetString(b"sys".to_vec()),
    );
    let modules = NsModuleSnapshot::new(&[h1]);

    let mut reg: Registry<AnyHandler<FnHandler>> = Registry::new();
    for handler in netsnmp_agent_handlers(state, Some(&modules)) {
        reg.register(handler);
    }

    let mut current: Oid = "1.3.6.1.4.1.8072.1".parse().unwrap();
    let mut seen: Vec<Oid> = Vec::new();
    loop {
        let pdu = Pdu::new(PduType::GetNext, 1).with_null_var(current.clone());
        let resp = reg.process(&pdu);
        let vb = &resp.variables[0];
        if vb.value == Value::EndOfMibView {
            break;
        }
        assert!(
            vb.oid.as_slice().starts_with(ns_agent_root),
            "walk left the subtree: {}",
            vb.oid.to_string()
        );
        seen.push(vb.oid.clone());
        current = vb.oid.clone();
    }
    let has_enabled = seen
        .iter()
        .any(|o| o.as_slice() == &[1, 3, 6, 1, 4, 1, 8072, 1, 6, 1, 0]);
    let has_module = seen.iter().any(|o| {
        o.as_slice()
            .starts_with(&[1, 3, 6, 1, 4, 1, 8072, 1, 5, 1])
    });
    assert!(has_enabled, "nsCacheEnabled.0 not visited: {seen:?}");
    assert!(has_module, "nsModuleTable not visited: {seen:?}");
}

#[test]
fn version_scalar_reports_crate_version() {
    let handlers = netsnmp_system_handlers();
    assert_eq!(handlers.len(), 1);
    let h = &handlers[0];
    let inst: Oid = "1.3.6.1.4.1.8072.1.0.1.0".parse().unwrap();
    let v = h.get(&inst).expect("version value");
    assert_eq!(v, Value::OctetString(b"net-snmp-rs 0.1.0".to_vec()));
}

#[test]
fn version_scalar_getnext_lands_on_instance() {
    let handlers = netsnmp_system_handlers();
    let h = &handlers[0];
    let root: Oid = "1.3.6.1.4.1.8072.1.0.1".parse().unwrap();
    let r = h.get_next(&root).expect("successor");
    let inst: Oid = "1.3.6.1.4.1.8072.1.0.1.0".parse().unwrap();
    assert_eq!(r.oid, inst);
}

#[test]
fn get_returns_current_value() {
    let h = SetSerialNoHandler::new(SerialCounter::new(42));
    let oid: Oid = "1.3.6.1.6.3.1.1.6.1.0".parse().unwrap();
    assert_eq!(h.get(&oid), Some(Value::Integer(42)));
}

#[test]
fn get_next_from_root_lands_on_instance() {
    let h = SetSerialNoHandler::new(SerialCounter::new(7));
    let root: Oid = "1.3.6.1.6.3.1.1.6.1".parse().unwrap();
    let next = h.get_next(&root).expect("successor");
    assert_eq!(next.oid.to_string(), ".1.3.6.1.6.3.1.1.6.1.0");
    assert_eq!(next.value, Value::Integer(7));
}

#[test]
fn set_updates_value() {
    let mut h = SetSerialNoHandler::new(SerialCounter::new(0));
    let oid: Oid = "1.3.6.1.6.3.1.1.6.1.0".parse().unwrap();
    h.prepare_set(&oid, &Value::Integer(99)).unwrap();
    h.commit_set(&oid, &Value::Integer(99)).unwrap();
    assert_eq!(h.counter().load(), 99);
    assert_eq!(h.get(&oid), Some(Value::Integer(99)));
}

#[test]
fn set_rejects_wrong_type() {
    let mut h = SetSerialNoHandler::new(SerialCounter::new(0));
    let oid: Oid = "1.3.6.1.6.3.1.1.6.1.0".parse().unwrap();
    let err = h
        .prepare_set(&oid, &Value::OctetString(b"no".to_vec()))
        .unwrap_err();
    assert_eq!(err, ErrorStatus::WrongType);
}

#[test]
fn set_rejects_out_of_range() {
    let mut h = SetSerialNoHandler::new(SerialCounter::new(0));
    let oid: Oid = "1.3.6.1.6.3.1.1.6.1.0".parse().unwrap();
    let err = h.prepare_set(&oid, &Value::Integer(-1)).unwrap_err();
    assert_eq!(err, ErrorStatus::WrongValue);
    let err = h
        .prepare_set(&oid, &Value::Integer(i32::MAX as i64 + 1))
        .unwrap_err();
    assert_eq!(err, ErrorStatus::WrongValue);
}

#[test]
fn set_rejects_wrong_instance() {
    let mut h = SetSerialNoHandler::new(SerialCounter::new(0));
    let other: Oid = "1.3.6.1.6.3.1.1.6.1.1".parse().unwrap();
    let err = h.prepare_set(&other, &Value::Integer(1)).unwrap_err();
    assert_eq!(err, ErrorStatus::NoCreation);
}

#[test]
fn increment_wraps_at_max() {
    let mut counter = SerialCounter::new(i32::MAX);
    increment_set_serial(&mut counter);
    assert_eq!(counter.load(), 0);
    increment_set_serial(&mut counter);
    assert_eq!(counter.load(), 1);
}

#[test]
fn handler_factory_is_walkable() {
    let h = set_serial_no_handler();
    let oid: Oid = "1.3.6.1.6.3.1.1.6.1.0".parse().unwrap();
    assert_eq!(h.get(&oid), Some(Value::Integer(0)));
    let root: Oid = "1.3.6.1.6.3.1.1.6.1".parse().unwrap();
    let next = h.get_next(&root).expect("successor");
    assert!(next.oid > root);
}

#[test]
fn shared_counter_visible_through_handler() {
    let counter = SerialCounter::new(5);
    let mut h = set_serial_no_handler_with(counter);
    increment_set_serial(h.counter_mut());
    let oid: Oid = "1.3.6.1.6.3.1.1.6.1.0".parse().unwrap();
    assert_eq!(h.get(&oid), Some(Value::Integer(6)));
}

#[test]
fn large_counters_saturate() {
    assert_eq!(integer_value(&Value::Counter64(u64::MAX)), Some(i64::MAX));
    assert_eq!(integer_value(&Value::TimeTicks(3)), Some(3));
    assert_eq!(integer_value(&Value::Null), None);
}

#[test]
fn handler_serves_known_snapshot() {
    let engine_id = b"0x80ENGINE".to_vec();
    let snapshot = EngineSnapshot {
        engine_id: engine_id.clone(),
        engine_boots: 7,
        seconds_up: Some(3),
    };
    let handlers = snmp_framework_handlers(&snapshot);
    assert_eq!(handlers.len(), 4);
    let id_oid: Oid = "1.3.6.1.6.3.10.2.1.1.0".parse().unwrap();
    assert_eq!(
        handlers[0].get(&id_oid),
        Some(Value::OctetString(engine_id.clone()))
    );
    let boots_oid: Oid = "1.3.6.1.6.3.10.2.1.2.0".parse().unwrap();
    assert_eq!(handlers[1].get(&boots_oid), Some(Value::Integer(7)));
    let time_oid: Oid = "1.3.6.1.6.3.10.2.1.3.0".parse().unwrap();
    match handlers[2].get(&time_oid) {
        Some(Value::Integer(t)) => assert!(t >= 0),
        other => panic!("expected snmpEngineTime, got {other:?}"),
    }
    assert_eq!(handlers[2].get(&time_oid), Some(Value::Integer(3)));
    let max_oid: Oid = "1.3.6.1.6.3.10.2.1.4.0".parse().unwrap();
    assert_eq!(handlers[3].get(&max_oid), Some(Value::Integer(65_507)));
}

#[test]
fn engine_time_is_zero_without_boot_time() {
    let handlers = snmp_framework_handlers(&EngineSnapshot {
        engine_id: Vec::new(),
        engine_boots: 1,
        seconds_up: None,
    });
    let time_oid: Oid = "1.3.6.1.6.3.10.2.1.3.0".parse().unwrap();
    assert_eq!(handlers[2].get(&time_oid), Some(Value::Integer(0)));
}

#[test]
fn subids_match_rfc1213() {
    assert_eq!(SnmpCounter::InPkgs.subid(), 1);
    assert_eq!(SnmpCounter::InBadVersions.subid(), 2);
    assert_eq!(SnmpCounter::OutPkts.subid(), 19);
    assert_eq!(SnmpCounter::EnableAuthenTraps.subid(), 29);
    assert_eq!(SnmpCounter::SilentDrops.subid(), 30);
    assert_eq!(SnmpCounter::ProxyDrops.subid(), 31);
}

#[test]
fn cells_cover_all_thirty_one_objects() {
    let counters = SnmpCounters::new();
    let cells = counters.cells();
    assert_eq!(cells.len(), 31);
    assert_eq!(
        find(&cells, ".1.3.6.1.2.1.11.1.0"),
        Some(Value::Counter32(0))
    );
    assert_eq!(find(&cells, ".1.3.6.1.2.1.11.29.0"), Some(Value::Integer(2)));
}

#[test]
fn inc_updates_counters_and_cells() {
    let mut counters = SnmpCounters::new();
    counters.inc(SnmpCounter::InPkgs);
    counters.inc(SnmpCounter::InPkgs);
    counters.inc(SnmpCounter::InBadVersions);
    counters.inc_by(SnmpCounter::OutPkts, 5);

    assert_eq!(counters.load(SnmpCounter::InPkgs), 2);
    assert_eq!(counters.load(SnmpCounter::InBadVersions), 1);
    assert_eq!(counters.load(SnmpCounter::OutPkts), 5);

    let cells = counters.cells();
    let get = |n: u32| find(&cells, &format!(".1.3.6.1.2.1.11.{n}.0"));
    assert_eq!(get(1), Some(Value::Counter32(2)));
    assert_eq!(get(2), Some(Value::Counter32(1)));
    assert_eq!(get(19), Some(Value::Counter32(5)));
}

#[test]
fn counters_wrap_on_the_wire() {
    let mut counters = SnmpCounters::default();
    counters.inc_by(SnmpCounter::InTraps, u32::MAX as u64 + 3);
    let cells = counters.cells();
    assert_eq!(
        find(&cells, ".1.3.6.1.2.1.11.18.0"),
        Some(Value::Counter32(2))
    );
    counters.inc_by(SnmpCounter::OutTraps, u64::MAX);
    counters.inc(SnmpCounter::OutTraps);
    assert_eq!(counters.load(SnmpCounter::OutTraps), 0);
}

#[test]
fn snmp_mib_handler_serves_counter_cells() {
    let mut counters = SnmpCounters::new();
    counters.inc(SnmpCounter::InPkgs);
    let handlers = snmp_mib_handlers(counters);
    assert_eq!(handlers.len(), 1);
    let oid: Oid = "1.3.6.1.2.1.11.1.0".parse().unwrap();
    assert_eq!(handlers[0].get(&oid), Some(Value::Counter32(1)));
    let root: Oid = "1.3.6.1.2.1.11".parse().unwrap();
    let first = handlers[0].get_next(&root).expect("first successor");
    assert!(first.oid > root);
}

#[test]
fn cells_return_two_counters() {
    let stats = SnmpMpdStats::new();
    let cells = stats.cells();
    assert_eq!(cells.len(), 2);
    assert_eq!(
        find(&cells, ".1.3.6.1.6.3.11.2.1.1.0"),
        Some(Value::Counter32(0))
    );
    assert_eq!(
        find(&cells, ".1.3.6.1.6.3.11.2.1.2.0"),
        Some(Value::Counter32(0))
    );
}

#[test]
fn increments_are_visible_through_handler() {
    let mut stats = SnmpMpdStats::new();
    stats.inc_unknown_security_model();
    stats.inc_unknown_security_model();
    stats.inc_invalid_msg();
    let handler = snmp_mpd_handler_with(stats);

    let unknown_oid: Oid = "1.3.6.1.6.3.11.2.1.1.0".parse().unwrap();
    assert_eq!(handler.get(&unknown_oid), Some(Value::Counter32(2)));
    let invalid_oid: Oid = "1.3.6.1.6.3.11.2.1.2.0".parse().unwrap();
    assert_eq!(handler.get(&invalid_oid), Some(Value::Counter32(1)));
    assert_eq!(
        snmp_mpd_handler().get(&invalid_oid),
        Some(Value::Counter32(0))
    );
    let root: Oid = "1.3.6.1.6.3.11.2.1".parse().unwrap();
    let first = handler.get_next(&root).expect("first successor");
    assert!(first.oid > root);
}

#[test]
fn inc_updates_counters() {
    let mut stats = UsmStats::new();
    stats.inc(UsmStat::UnknownUserNames);
    stats.inc(UsmStat::UnknownUserNames);
    stats.inc(UsmStat::WrongDigests);

    let cells = stats.cells();
    assert_eq!(cells.len(), 6);
    let get = |col: u32| find(&cells, &format!(".1.3.6.1.6.3.15.1.1.{col}.0"));
    assert_eq!(get(3), Some(Value::Counter32(2)));
    assert_eq!(get(5), Some(Value::Counter32(1)));
    assert_eq!(get(1), Some(Value::Counter32(0)));
}

#[test]
fn usm_stats_handler_serves_counter_cells() {
    let mut stats = UsmStats::new();
    stats.inc(UsmStat::DecryptionErrors);
    let handler = usm_stats_handler(stats);
    let oid: Oid = "1.3.6.1.6.3.15.1.1.6.0".parse().unwrap();
    assert_eq!(handler.get(&oid), Some(Value::Counter32(1)));
    let root: Oid = "1.3.6.1.6.3.15.1.1".parse().unwrap();
    let first = handler.get_next(&root).expect("first successor");
    assert!(first.oid > root);
}

#[test]
fn register_two_entries_assigns_increasing_indices() {
    let mut table = SysOrTable::new();
    let i1 = table.register("1.3.6.1.2.1.1".parse().unwrap(), "snmpv2 mib".to_string(), 0);
    let i2 = table.register(
        "1.3.6.1.6.3.10.2.1".parse().unwrap(),
        "snmp framework".to_string(),
        0,
    );
    assert_eq!((i1, i2), (1, 2));
}

#[test]
fn cells_shape_matches_table_layout() {
    let mut table = SysOrTable::new();
    let _ = table.register("1.3.6.1.2.1.1".parse().unwrap(), "snmpv2 mib".to_string(), 0);
    let _ = table.register(
        "1.3.6.1.6.3.10.2.1".parse().unwrap(),
        "snmp framework".to_string(),
        1239,
    );
    let cells = table.cells();
    assert_eq!(cells.len(), 6);
    assert_eq!(
        find(&cells, ".1.3.6.1.2.1.1.9.1.2.1"),
        Some(Value::Oid("1.3.6.1.2.1.1".parse().unwrap()))
    );
    assert_eq!(
        find(&cells, ".1.3.6.1.2.1.1.9.1.3.2"),
        Some(Value::OctetString(b"snmp framework".to_vec()))
    );
    let up2 = find(&cells, ".1.3.6.1.2.1.1.9.1.4.2");
    assert!(matches!(up2, Some(Value::TimeTicks(_))));
    assert_eq!(up2, Some(Value::TimeTicks(123)));
}

#[test]
fn handler_serves_registered_rows() {
    let mut table = SysOrTable::new();
    let _ = table.register("1.3.6.1.2.1.1".parse().unwrap(), "snmpv2 mib".to_string(), 0);
    let handler = sysor_handler(table);
    let id1_oid: Oid = "1.3.6.1.2.1.1.9.1.2.1".parse().unwrap();
    let got = handler.get(&id1_oid);
    assert_eq!(got, Some(Value::Oid("1.3.6.1.2.1.1".parse().unwrap())));
    let root: Oid = "1.3.6.1.2.1.1.9.1".parse().unwrap();
    let first = handler.get_next(&root).expect("first successor");
    assert!(first.oid > root);
}

#[test]
fn formats_sysdescr() {
    let d = format_sysdescr("Linux", "box", "6.6.0", "#1 SMP", "x86_64");
    assert_eq!(d, "Linux box 6.6.0 #1 SMP x86_64");
}

fn facts() -> SystemFacts {
    SystemFacts {
        os_name: Some("Linux".to_string()),
        os_version: None,
        long_os_version: None,
        kernel_version: Some("6.6.0".to_string()),
        host_name: None,
        cpu_arch: "x86_64".to_string(),
    }
}

#[test]
fn registers_seven_objects() {
    let mut hs: Vec<AnyHandler<FnHandler>> = system_handlers("admin <a@b.c>", "lab", &facts(), 0);
    assert_eq!(hs.len(), 7);
    let oid: Oid = "1.3.6.1.2.1.1.4.0".parse().unwrap();
    let value = Value::OctetString(b"new".to_vec());
    match &mut hs[3] {
        AnyHandler::Scalar(contact) => assert!(contact.set(&oid, &value).is_ok()),
        _ => panic!("the contact is a scalar"),
    }
    let contact = &mut hs[3];
    assert!(contact.prepare_set(&oid, &value).is_ok());
    assert!(contact.commit_set(&oid, &value).is_ok());
    assert_eq!(contact.get(&oid), Some(value));
}

#[test]
fn system_is_described_from_what_is_known() {
    assert_eq!(
        system_description(&facts()),
        "Linux localhost 6.6.0 6.6.0 x86_64"
    );
    assert_eq!(host_name(&facts()), "localhost");
    let hs: Vec<AnyHandler<FnHandler>> = system_handlers("c", "l", &facts(), 12_345);
    assert_eq!(
        hs[2].get(&"1.3.6.1.2.1.1.3.0".parse().unwrap()),
        Some(Value::TimeTicks(1234))
    );
    let hs: Vec<AnyHandler<FnHandler>> = system_handlers("c", "l", &facts(), u64::MAX);
    assert_eq!(
        hs[2].get(&"1.3.6.1.2.1.1.3.0".parse().unwrap()),
        Some(Value::TimeTicks(u32::MAX))
    );
}

#[test]
fn counting_goes_on_what_is_served() {
    let texts = KernelTexts {
        snmp: String::new(),
        tcp: String::new(),
        udp: String::new(),
        arp: String::new(),
        route: String::new(),
    };
    let engine = FrameworkMibConfig {
        engine_id: vec![1],
        engine_boots: 1,
        seconds_up: 0,
    };
    let mut counters = SnmpCounters::new();
    counters.inc(SnmpCounter::InPkgs);
    let mut reg: Registry<AnyHandler<FnHandler>> = Registry::new();
    assert!(served_counters(&mut reg).is_none());
    register_mib2_mibs(&mut reg, &texts, Some(counters));
    register_framework_mibs(&mut reg, &engine, SysOrTable::new(), UsmStats::new());
    let in_packets: Oid = "1.3.6.1.2.1.11.1.0".parse().unwrap();
    let digests: Oid = "1.3.6.1.6.3.15.1.1.5.0".parse().unwrap();
    let invalid: Oid = "1.3.6.1.6.3.11.2.1.2.0".parse().unwrap();
    let descr: Oid = "1.3.6.1.2.1.1.9.1.3.1".parse().unwrap();
    for n in 0..3u32 {
        assert_eq!(reg.get(&in_packets), Value::Counter32(n + 1));
        assert_eq!(reg.get(&digests), Value::Counter32(2 * n));
        assert_eq!(reg.get(&invalid), Value::Counter32(n));
        served_counters(&mut reg).unwrap().inc(SnmpCounter::InPkgs);
        let stats = served_usm(&mut reg).unwrap();
        stats.inc(UsmStat::WrongDigests);
        stats.inc(UsmStat::WrongDigests);
        served_mpd(&mut reg).unwrap().inc_invalid_msg();
    }
    assert_eq!(reg.get(&descr), Value::NoSuchInstance);
    let table = served_sysor(&mut reg).unwrap();
    assert_eq!(table.register("1.3".parse().unwrap(), "agent".to_string(), 0), 1);
    assert_eq!(table.len(), 1);
    assert_eq!(reg.get(&descr), Value::OctetString(b"agent".to_vec()));
}

#[test]
fn lent_counters_are_those_of_the_handler() {
    let mut h = usm_stats_handler(UsmStats::new());
    assert!(h.counters_mut().is_none());
    h.usm_mut().unwrap().inc(UsmStat::NotInTimeWindows);
    let oid: Oid = "1.3.6.1.6.3.15.1.1.2.0".parse().unwrap();
    assert_eq!(h.get(&oid), Some(Value::Counter32(1)));
    assert_eq!(
        h.commit_set(&oid, &Value::Counter32(5)),
        Err(ErrorStatus::NotWritable)
    );
    let mut state = NsCacheState::new();
    state.set_ttl("mib", Ttl::from_secs(10));
    let mut h = ns_cache_handlers(state).remove(0);
    h.cache_mut().set_ttl("mib", Ttl::from_secs(11));
    assert_eq!(h.get(&timeout_oid(b"mib")), Some(Value::Integer(11)));
}

#[test]
fn tables_are_served_in_the_place_of_older_ones() {
    let mut reg: Registry<AnyHandler<FnHandler>> = Registry::new();
    let root: Oid = "1.3.9".parse().unwrap();
    for n in 0..3 {
        update_table(&mut reg, FnHandler::scalar(root.clone(), Value::Integer(n)));
        assert_eq!(reg.len(), 1);
        assert_eq!(reg.get(&root.child(0)), Value::Integer(n));
    }
}

#[test]
fn sets_are_counted_where_they_are_served() {
    let mut reg: Registry<AnyHandler<FnHandler>> = Registry::new();
    reg.register(AnyHandler::Serial(set_serial_no_handler_with(SerialCounter::new(i32::MAX - 1))));
    let oid: Oid = "1.3.6.1.6.3.1.1.6.1.0".parse().unwrap();
    count_set(&mut reg);
    assert_eq!(reg.get(&oid), Value::Integer(i32::MAX as i64));
    count_set(&mut reg);
    assert_eq!(reg.get(&oid), Value::Integer(0));
}
