use netsnmp_agent::handler::MibHandler;
use netsnmp_agent::oid::Oid;
use netsnmp_agent::pdu::ErrorStatus;
use netsnmp_agent::scalar::{
    snapshot_is_fresh, types_compatible, FnHandler, MapHandler, ScalarHandler,
};
use netsnmp_agent::value::{Ipv4Addr, Value};

#[test]
fn scalar_get_and_getnext() {
    let root: Oid = "1.3.6.1.2.1.1.1".parse().unwrap();
    let h = ScalarHandler::new(root.clone(), Value::OctetString(b"hi".to_vec()));
    assert_eq!(
        h.get(&root.child(0)),
        Some(Value::OctetString(b"hi".to_vec()))
    );
    let nx = h.get_next(&root).unwrap();
    assert_eq!(nx.oid, root.child(0));
}

#[test]
fn map_getnext_is_ordered() {
    let root: Oid = "1.3.6.1.2.1.2.2.1.2".parse().unwrap();
    let h = MapHandler::new(root.clone())
        .with(root.child(1), Value::OctetString(b"lo".to_vec()))
        .with(root.child(2), Value::OctetString(b"eth0".to_vec()));
    let first = h.get_next(&root).unwrap();
    assert_eq!(first.oid, root.child(1));
    let second = h.get_next(&first.oid).unwrap();
    assert_eq!(second.oid, root.child(2));
    assert!(h.get_next(&second.oid).is_none());
}

#[test]
fn fn_handler_serves_live_cells() {
    let root: Oid = "1.3.6.1.2.1.2.2".parse().unwrap();
    let entry = root.child(1);
    let h = FnHandler::new(
        root.clone(),
        vec![
            (entry.child(2).child(1), Value::OctetString(b"lo".to_vec())),
            (
                entry.child(2).child(2),
                Value::OctetString(b"eth0".to_vec()),
            ),
        ],
    );
    let first = h.get_next(&root).unwrap();
    assert_eq!(first.oid.to_string(), ".1.3.6.1.2.1.2.2.1.2.1");
    let second = h.get_next(&first.oid).unwrap();
    assert_eq!(second.oid.to_string(), ".1.3.6.1.2.1.2.2.1.2.2");
    assert!(h.get_next(&second.oid).is_none());
    assert_eq!(h.get(&first.oid), Some(Value::OctetString(b"lo".to_vec())));
}

#[test]
fn fn_scalar_serves_instance_zero() {
    let root: Oid = "1.3.6.1.2.1.1.3".parse().unwrap();
    let h = FnHandler::scalar(root.clone(), Value::TimeTicks(4242));
    assert_eq!(h.get(&root.child(0)), Some(Value::TimeTicks(4242)));
    assert_eq!(h.get_next(&root).unwrap().oid, root.child(0));
}

#[test]
fn writable_scalar_accepts_set() {
    let root: Oid = "1.3.6.1.2.1.1.6".parse().unwrap();
    let mut h = ScalarHandler::new(root.clone(), Value::OctetString(b"old".to_vec())).writable();
    h.set(&root.child(0), &Value::OctetString(b"new".to_vec()))
        .unwrap();
    assert_eq!(
        h.get(&root.child(0)),
        Some(Value::OctetString(b"new".to_vec()))
    );
}

#[test]
fn scalar_prepare_set_rejects_wrong_type() {
    let root: Oid = "1.3.6.1.2.1.1.7".parse().unwrap();
    let mut h = ScalarHandler::new(root.clone(), Value::OctetString(b"old".to_vec())).writable();
    let err = h
        .prepare_set(&root.child(0), &Value::Integer(7))
        .unwrap_err();
    assert_eq!(err, ErrorStatus::WrongType);
    assert_eq!(
        h.get(&root.child(0)),
        Some(Value::OctetString(b"old".to_vec()))
    );
}

#[test]
fn scalar_prepare_set_accepts_same_type() {
    let root: Oid = "1.3.6.1.2.1.1.8".parse().unwrap();
    let mut h = ScalarHandler::new(root.clone(), Value::Integer(1)).writable();
    h.prepare_set(&root.child(0), &Value::Integer(2)).unwrap();
    h.commit_set(&root.child(0), &Value::Integer(2)).unwrap();
    assert_eq!(h.get(&root.child(0)), Some(Value::Integer(2)));
}

#[test]
fn map_prepare_set_rejects_unknown_instance() {
    let root: Oid = "1.3.6.1.2.1.99.1".parse().unwrap();
    let mut h = MapHandler::new(root.clone())
        .with(root.child(1), Value::OctetString(b"lo".to_vec()))
        .writable();
    let err = h
        .prepare_set(&root.child(2), &Value::OctetString(b"x".to_vec()))
        .unwrap_err();
    assert_eq!(err, ErrorStatus::NoCreation);
}

#[test]
fn map_prepare_set_rejects_wrong_type() {
    let root: Oid = "1.3.6.1.2.1.99.2".parse().unwrap();
    let mut h = MapHandler::new(root.clone())
        .with(root.child(1), Value::OctetString(b"lo".to_vec()))
        .writable();
    let err = h
        .prepare_set(&root.child(1), &Value::Integer(1))
        .unwrap_err();
    assert_eq!(err, ErrorStatus::WrongType);
}

#[test]
fn read_only_scalar_refuses_set() {
    let root: Oid = "1.3.6.1.2.1.1.6".parse().unwrap();
    let mut h = ScalarHandler::new(root.clone(), Value::Integer(1));
    assert_eq!(
        h.set(&root.child(0), &Value::Integer(2)),
        Err(ErrorStatus::NotWritable)
    );
    let mut w = ScalarHandler::new(root.clone(), Value::Integer(1)).writable();
    assert_eq!(
        w.set(&root.child(1), &Value::Integer(2)),
        Err(ErrorStatus::NoCreation)
    );
    assert_eq!(w.get_value(), Value::Integer(1));
}

#[test]
fn tables_are_read_only() {
    let root: Oid = "1.3.6.1.2.1.1.3".parse().unwrap();
    let mut h = FnHandler::scalar(root.clone(), Value::TimeTicks(1));
    assert_eq!(
        h.commit_set(&root.child(0), &Value::TimeTicks(2)),
        Err(ErrorStatus::NotWritable)
    );
}

#[test]
fn table_keeps_the_last_of_equal_cells() {
    let root: Oid = "1.3.6.1.9".parse().unwrap();
    let h = FnHandler::table(
        root.clone(),
        vec![
            (root.child(2), Value::Integer(1)),
            (root.child(1), Value::Integer(2)),
            (root.child(2), Value::Integer(3)),
        ],
    );
    assert_eq!(h.get_next(&root).unwrap().value, Value::Integer(2));
    assert_eq!(h.get(&root.child(2)), Some(Value::Integer(3)));
}

#[test]
fn type_families_decide_compatibility() {
    assert!(types_compatible(&Value::Integer(1), &Value::Gauge32(2)));
    assert!(types_compatible(
        &Value::OctetString(vec![]),
        &Value::IpAddress(Ipv4Addr::new(1, 2, 3, 4))
    ));
    assert!(!types_compatible(&Value::Integer(1), &Value::OctetString(vec![])));
    assert!(!types_compatible(&Value::Null, &Value::Null));
}

#[test]
fn snapshots_age() {
    assert!(snapshot_is_fresh(0));
    assert!(snapshot_is_fresh(899));
    assert!(!snapshot_is_fresh(900));
}

#[test]
fn refreshed_table_serves_the_new_cells() {
    let root: Oid = "1.3.6.1.9".parse().unwrap();
    let mut h = FnHandler::new(root.clone(), vec![(root.child(1), Value::Integer(1))]);
    h.refresh(vec![(root.child(2), Value::Integer(2))]);
    assert_eq!(h.get(&root.child(1)), None);
    assert_eq!(h.get(&root.child(2)), Some(Value::Integer(2)));
}
