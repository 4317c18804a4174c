use netsnmp_agent::any_handler::AnyHandler;
use netsnmp_agent::handler::MibHandler;
use netsnmp_agent::mibgroup::reporting::update_tables;
use netsnmp_agent::mibgroup::vacm::{register_vacm_mibs, vacm_handlers};
use netsnmp_agent::oid::Oid;
use netsnmp_agent::pdu::{Pdu, PduType};
use netsnmp_agent::registry::Registry;
use netsnmp_agent::scalar::FnHandler;
use netsnmp_agent::vacm::{
    ContextMatch, Vacm, VacmAccess, VacmGroup, VacmView, ViewTreeFamilyType,
};
use netsnmp_agent::value::Value;

fn sample_vacm() -> Vacm {
    let mut vacm = Vacm::new();
    vacm.add_context(b"".to_vec());
    vacm.add_context(b"ctxA".to_vec());
    vacm.add_group(VacmGroup {
        security_model: 2,
        security_name: b"public".to_vec(),
        group: b"g1".to_vec(),
    });
    vacm.add_access(VacmAccess {
        group: b"g1".to_vec(),
        context_prefix: b"".to_vec(),
        security_model: 0,
        security_level: 0,
        context_match: ContextMatch::Prefix,
        read_view: Some(b"all".to_vec()),
        write_view: None,
        notify_view: None,
    });
    vacm.add_view(
        b"all".to_vec(),
        VacmView {
            subtree: "1.3.6.1.2.1".parse().unwrap(),
            mask: vec![0xfe],
            typ: ViewTreeFamilyType::Included,
        },
    );
    vacm
}

#[test]
fn context_table_exposes_registered_contexts() {
    let vacm = sample_vacm();
    let handler = &vacm_handlers(&vacm)[0];
    let oid: Oid = "1.3.6.1.6.3.16.1.1.1.0".parse().unwrap();
    assert_eq!(handler.get(&oid), Some(Value::OctetString(Vec::new())));
    let oid_a: Oid = "1.3.6.1.6.3.16.1.1.1.4.99.116.120.65".parse().unwrap();
    assert_eq!(
        handler.get(&oid_a),
        Some(Value::OctetString(b"ctxA".to_vec()))
    );
}

#[test]
fn s2g_table_exposes_group_name() {
    let vacm = sample_vacm();
    let handler = &vacm_handlers(&vacm)[1];
    let oid: Oid = "1.3.6.1.6.3.16.1.2.1.3.2.6.112.117.98.108.105.99"
        .parse()
        .unwrap();
    assert_eq!(handler.get(&oid), Some(Value::OctetString(b"g1".to_vec())));
    let st_oid: Oid = "1.3.6.1.6.3.16.1.2.1.4.2.6.112.117.98.108.105.99"
        .parse()
        .unwrap();
    assert_eq!(handler.get(&st_oid), Some(Value::Integer(2)));
    let status_oid: Oid = "1.3.6.1.6.3.16.1.2.1.5.2.6.112.117.98.108.105.99"
        .parse()
        .unwrap();
    assert_eq!(handler.get(&status_oid), Some(Value::Integer(1)));
}

#[test]
fn access_table_exposes_views_and_context_match() {
    let vacm = sample_vacm();
    let handler = &vacm_handlers(&vacm)[2];
    let ctx_match_oid: Oid = "1.3.6.1.6.3.16.1.4.1.4.2.103.49.0.0.0".parse().unwrap();
    assert_eq!(handler.get(&ctx_match_oid), Some(Value::Integer(2)));
    let read_oid: Oid = "1.3.6.1.6.3.16.1.4.1.5.2.103.49.0.0.0".parse().unwrap();
    assert_eq!(
        handler.get(&read_oid),
        Some(Value::OctetString(b"all".to_vec()))
    );
    let write_oid: Oid = "1.3.6.1.6.3.16.1.4.1.6.2.103.49.0.0.0".parse().unwrap();
    assert_eq!(
        handler.get(&write_oid),
        Some(Value::OctetString(Vec::new()))
    );
}

#[test]
fn view_table_exposes_mask_and_type() {
    let vacm = sample_vacm();
    let handler = &vacm_handlers(&vacm)[3];
    let mask_oid: Oid = "1.3.6.1.6.3.16.1.5.2.1.3.3.97.108.108.6.1.3.6.1.2.1"
        .parse()
        .unwrap();
    assert_eq!(handler.get(&mask_oid), Some(Value::OctetString(vec![0xfe])));
    let type_oid: Oid = "1.3.6.1.6.3.16.1.5.2.1.4.3.97.108.108.6.1.3.6.1.2.1"
        .parse()
        .unwrap();
    assert_eq!(handler.get(&type_oid), Some(Value::Integer(1)));
}

#[test]
fn handlers_are_walkable_in_oid_order() {
    let vacm = sample_vacm();
    let handler = &vacm_handlers(&vacm)[0];
    let root: Oid = "1.3.6.1.6.3.16.1.1".parse().unwrap();
    let first = handler.get_next(&root).expect("first successor");
    assert!(first.oid > root);
    assert!(first.oid.to_string().starts_with(".1.3.6.1.6.3.16.1.1.1."));
}

#[test]
fn register_into_registry_makes_tables_walkable() {
    let vacm = sample_vacm();
    let mut reg: Registry<AnyHandler<FnHandler>> = Registry::new();
    register_vacm_mibs(&mut reg, &vacm);
    let oid: Oid = "1.3.6.1.6.3.16.1.2.1.3.2.6.112.117.98.108.105.99"
        .parse()
        .unwrap();
    let pdu = Pdu::new(PduType::Get, 1).with_null_var(oid);
    let resp = reg.process(&pdu);
    assert_eq!(
        resp.variables[0].value,
        Value::OctetString(b"g1".to_vec())
    );
}

#[test]
fn tables_follow_a_changed_configuration() {
    let mut vacm = sample_vacm();
    let mut reg: Registry<AnyHandler<FnHandler>> = Registry::new();
    register_vacm_mibs(&mut reg, &vacm);
    let count = reg.len();
    vacm.add_context(b"b".to_vec());
    update_tables(&mut reg, vacm_handlers(&vacm));
    assert_eq!(reg.len(), count);
    assert_eq!(
        reg.get(&"1.3.6.1.6.3.16.1.1.1.1.98".parse().unwrap()),
        Value::OctetString(b"b".to_vec())
    );
}
