use netsnmp_agent::any_handler::AnyHandler;
use netsnmp_agent::handler::{MibHandler, Reading};
use netsnmp_agent::oid::Oid;
use netsnmp_agent::pdu::{ErrorStatus, Pdu, PduType};
use netsnmp_agent::registry::{Registry, SecurityContext};
use netsnmp_agent::scalar::{FnHandler, MapHandler, ScalarHandler};
use netsnmp_agent::vacm::{
    AccessView, ContextMatch, Vacm, VacmAccess, VacmGroup, VacmView, ViewTreeFamilyType,
};
use netsnmp_agent::value::{Value, VarBind};
use std::sync::{Arc, Mutex};

type Handlers = AnyHandler<FnHandler>;

fn sample_registry() -> Registry<Handlers> {
    let mut reg = Registry::new();
    reg.register(AnyHandler::Scalar(ScalarHandler::new(
        "1.3.6.1.2.1.1.1".parse().unwrap(),
        Value::OctetString(b"net-snmp-rs".to_vec()),
    )));
    reg.register(AnyHandler::Scalar(ScalarHandler::new(
        "1.3.6.1.2.1.1.5".parse().unwrap(),
        Value::OctetString(b"agent01".to_vec()),
    )));
    let if_descr: Oid = "1.3.6.1.2.1.2.2.1.2".parse().unwrap();
    reg.register(AnyHandler::Instances(
        MapHandler::new(if_descr.clone())
            .with(if_descr.child(1), Value::OctetString(b"lo".to_vec()))
            .with(if_descr.child(2), Value::OctetString(b"eth0".to_vec())),
    ));
    reg
}

#[test]
fn get_hit_and_miss() {
    let mut reg = sample_registry();
    let pdu = Pdu::new(PduType::Get, 1)
        .with_null_var("1.3.6.1.2.1.1.1.0".parse().unwrap())
        .with_null_var("1.3.6.1.2.1.1.9.0".parse().unwrap())
        .with_null_var("1.3.6.1.2.1.1.1.7".parse().unwrap());
    let resp = reg.process(&pdu);
    assert_eq!(
        resp.variables[0].value,
        Value::OctetString(b"net-snmp-rs".to_vec())
    );
    assert_eq!(resp.variables[1].value, Value::NoSuchObject);
    assert_eq!(resp.variables[2].value, Value::NoSuchInstance);
}

#[test]
fn getnext_walks_in_order() {
    let mut reg = sample_registry();
    let mut current: Oid = "1.3.6.1.2.1.1".parse().unwrap();
    let mut seen = Vec::new();
    loop {
        let pdu = Pdu::new(PduType::GetNext, 1).with_null_var(current.clone());
        let resp = reg.process(&pdu);
        let vb = &resp.variables[0];
        if vb.value == Value::EndOfMibView {
            break;
        }
        seen.push(vb.oid.to_string());
        current = vb.oid.clone();
    }
    assert_eq!(
        seen,
        vec![
            ".1.3.6.1.2.1.1.1.0",
            ".1.3.6.1.2.1.1.5.0",
            ".1.3.6.1.2.1.2.2.1.2.1",
            ".1.3.6.1.2.1.2.2.1.2.2",
        ]
    );
}

#[test]
fn getbulk_repeats() {
    let mut reg = sample_registry();
    let pdu = {
        let mut p = Pdu::new(PduType::GetBulk, 1);
        p.error_status = 0;
        p.error_index = 10;
        p.variables
            .push(VarBind::null("1.3.6.1.2.1.2.2.1.2".parse().unwrap()));
        p
    };
    let resp = reg.process(&pdu);
    assert!(resp.variables.len() >= 2);
    assert_eq!(resp.variables[0].oid.to_string(), ".1.3.6.1.2.1.2.2.1.2.1");
    assert_eq!(resp.variables[1].oid.to_string(), ".1.3.6.1.2.1.2.2.1.2.2");
}

#[test]
fn set_read_only_fails() {
    let mut reg = sample_registry();
    let mut pdu = Pdu::new(PduType::SetRequest, 1);
    pdu.variables.push(VarBind::new(
        "1.3.6.1.2.1.1.5.0".parse().unwrap(),
        Value::OctetString(b"newname".to_vec()),
    ));
    let resp = reg.process(&pdu);
    assert_eq!(resp.status(), ErrorStatus::NotWritable);
    assert_eq!(resp.error_index, 1);
}

struct PhaseSpy {
    root: Oid,
    log: Arc<Mutex<Vec<&'static str>>>,
    reserve_ok: bool,
    commit_ok: bool,
    last_value: Mutex<Option<Value>>,
}

impl PhaseSpy {
    fn new(root: Oid, log: Arc<Mutex<Vec<&'static str>>>) -> Self {
        PhaseSpy {
            root,
            log,
            reserve_ok: true,
            commit_ok: true,
            last_value: Mutex::new(None),
        }
    }

    fn with_reserve(mut self, ok: bool) -> Self {
        self.reserve_ok = ok;
        self
    }

    fn with_commit(mut self, ok: bool) -> Self {
        self.commit_ok = ok;
        self
    }
}

impl MibHandler for PhaseSpy {
    type State = PhaseSpy;

    fn root(&self) -> &Oid {
        &self.root
    }
    fn get(&self, _oid: &Oid) -> Option<Value> {
        self.last_value.lock().unwrap().clone()
    }
    fn get_next(&self, oid: &Oid) -> Option<Reading> {
        self.last_value
            .lock()
            .unwrap()
            .clone()
            .map(|v| Reading { oid: self.root.clone(), value: v })
            .filter(|_| oid < &self.root)
    }
    fn prepare_set(&mut self, _oid: &Oid, _value: &Value) -> Result<(), ErrorStatus> {
        self.log.lock().unwrap().push("prepare");
        if self.reserve_ok {
            Ok(())
        } else {
            Err(ErrorStatus::WrongValue)
        }
    }
    fn commit_set(&mut self, _oid: &Oid, value: &Value) -> Result<(), ErrorStatus> {
        self.log.lock().unwrap().push("commit");
        if self.commit_ok {
            *self.last_value.lock().unwrap() = Some(value.clone());
            Ok(())
        } else {
            Err(ErrorStatus::CommitFailed)
        }
    }
    fn undo_set(&mut self, _oid: &Oid, _value: &Value) -> Result<(), ErrorStatus> {
        self.log.lock().unwrap().push("undo");
        *self.last_value.lock().unwrap() = None;
        Ok(())
    }
}

#[test]
fn set_transaction_runs_all_phases() {
    let log = Arc::new(Mutex::new(Vec::new()));
    let root: Oid = "1.3.6.1.2.1.99.1".parse().unwrap();
    let mut reg = Registry::new();
    reg.register(PhaseSpy::new(root.clone(), Arc::clone(&log)));

    let mut pdu = Pdu::new(PduType::SetRequest, 1);
    pdu.variables
        .push(VarBind::new(root.clone(), Value::Integer(7)));
    let resp = reg.process(&pdu);
    assert_eq!(resp.status(), ErrorStatus::NoError);
    assert_eq!(*log.lock().unwrap(), vec!["prepare", "prepare", "commit"]);
    assert_eq!(reg.handlers()[0].get(&root), Some(Value::Integer(7)));
}

#[test]
fn set_reserve_failure_skips_commit_and_undo() {
    let log = Arc::new(Mutex::new(Vec::new()));
    let root: Oid = "1.3.6.1.2.1.99.2".parse().unwrap();
    let mut reg = Registry::new();
    reg.register(PhaseSpy::new(root.clone(), Arc::clone(&log)).with_reserve(false));

    let mut pdu = Pdu::new(PduType::SetRequest, 1);
    pdu.variables
        .push(VarBind::new(root.clone(), Value::Integer(7)));
    let resp = reg.process(&pdu);
    assert_eq!(resp.status(), ErrorStatus::WrongValue);
    assert_eq!(resp.error_index, 1);
    assert_eq!(*log.lock().unwrap(), vec!["prepare"]);
    assert_eq!(reg.handlers()[0].get(&root), None);
}

#[test]
fn set_multi_varbind_atomicity() {
    let mut reg = Registry::new();
    let a: Oid = "1.3.6.1.2.1.99.10".parse().unwrap();
    let b: Oid = "1.3.6.1.2.1.99.20".parse().unwrap();
    reg.register(ScalarHandler::new(a.clone(), Value::OctetString(b"old-a".to_vec())).writable());
    reg.register(ScalarHandler::new(b.clone(), Value::OctetString(b"old-b".to_vec())).writable());

    let mut pdu = Pdu::new(PduType::SetRequest, 1);
    pdu.variables.push(VarBind::new(
        a.child(0),
        Value::OctetString(b"new-a".to_vec()),
    ));
    pdu.variables
        .push(VarBind::new(b.child(0), Value::Integer(99)));
    let resp = reg.process(&pdu);
    assert_eq!(resp.status(), ErrorStatus::WrongType);
    assert_eq!(resp.error_index, 2);

    let get_a = Pdu::new(PduType::Get, 2).with_null_var(a.child(0));
    let resp_a = reg.process(&get_a);
    assert_eq!(
        resp_a.variables[0].value,
        Value::OctetString(b"old-a".to_vec())
    );
}

#[test]
fn set_commit_failure_triggers_undo() {
    let log = Arc::new(Mutex::new(Vec::new()));
    let ok_root: Oid = "1.3.6.1.2.1.99.30".parse().unwrap();
    let bad_root: Oid = "1.3.6.1.2.1.99.40".parse().unwrap();
    let mut reg = Registry::new();
    reg.register(PhaseSpy::new(ok_root.clone(), Arc::clone(&log)));
    reg.register(PhaseSpy::new(bad_root.clone(), Arc::clone(&log)).with_commit(false));

    let mut pdu = Pdu::new(PduType::SetRequest, 1);
    pdu.variables
        .push(VarBind::new(ok_root.clone(), Value::Integer(1)));
    pdu.variables
        .push(VarBind::new(bad_root.clone(), Value::Integer(2)));
    let resp = reg.process(&pdu);
    assert_eq!(resp.status(), ErrorStatus::CommitFailed);
    assert_eq!(resp.error_index, 2);
    let l = log.lock().unwrap();
    assert!(l.contains(&"undo"), "expected undo to be invoked, got {l:?}");
}

fn restricted_vacm() -> Arc<Vacm> {
    let mut vacm = Vacm::new();
    vacm.add_group(VacmGroup {
        security_model: 2,
        security_name: b"public".to_vec(),
        group: b"g".to_vec(),
    });
    vacm.add_access(VacmAccess {
        group: b"g".to_vec(),
        context_prefix: Vec::new(),
        security_model: 0,
        security_level: 0,
        context_match: ContextMatch::Prefix,
        read_view: Some(b"ro".to_vec()),
        write_view: Some(b"rw".to_vec()),
        notify_view: None,
    });
    vacm.add_view(
        b"ro".to_vec(),
        VacmView {
            subtree: "1.3.6.1.2.1.1".parse().unwrap(),
            mask: Vec::new(),
            typ: ViewTreeFamilyType::Included,
        },
    );
    vacm.add_view(
        b"rw".to_vec(),
        VacmView {
            subtree: "1.3.6.1.2.1.1.5".parse().unwrap(),
            mask: Vec::new(),
            typ: ViewTreeFamilyType::Included,
        },
    );
    Arc::new(vacm)
}

fn secure_ctx(vacm: Arc<Vacm>) -> SecurityContext {
    SecurityContext {
        security_model: 2,
        security_name: b"public".to_vec(),
        security_level: 0,
        context: Vec::new(),
        vacm: Some(vacm),
    }
}

#[test]
fn permissive_context_keeps_legacy_behaviour() {
    let mut reg = sample_registry();
    let pdu = Pdu::new(PduType::Get, 1)
        .with_null_var("1.3.6.1.2.1.1.1.0".parse().unwrap())
        .with_null_var("1.3.6.1.2.1.2.2.1.2.1".parse().unwrap());
    let resp = reg.process_with_access(&pdu, &SecurityContext::permissive());
    assert_eq!(resp.status(), ErrorStatus::NoError);
    assert_eq!(
        resp.variables[0].value,
        Value::OctetString(b"net-snmp-rs".to_vec())
    );
    assert_eq!(resp.variables[1].value, Value::OctetString(b"lo".to_vec()));
}

#[test]
fn get_denied_by_vacm_returns_no_access() {
    let mut reg = sample_registry();
    let sec = secure_ctx(restricted_vacm());
    let pdu = Pdu::new(PduType::Get, 1)
        .with_null_var("1.3.6.1.2.1.1.1.0".parse().unwrap())
        .with_null_var("1.3.6.1.2.1.2.2.1.2.1".parse().unwrap());
    let resp = reg.process_with_access(&pdu, &sec);
    assert_eq!(resp.status(), ErrorStatus::NoAccess);
    assert_eq!(resp.error_index, 2);
    assert_eq!(resp.variables.len(), 2);
}

#[test]
fn getnext_skips_inaccessible_oid() {
    let mut reg = sample_registry();
    let sec = secure_ctx(restricted_vacm());
    let pdu = Pdu::new(PduType::GetNext, 1).with_null_var("1.3.6.1.2.1.1".parse().unwrap());
    let resp = reg.process_with_access(&pdu, &sec);
    assert_eq!(resp.status(), ErrorStatus::NoError);
    assert_eq!(resp.variables[0].oid.to_string(), ".1.3.6.1.2.1.1.1.0");
    let pdu2 = Pdu::new(PduType::GetNext, 2).with_null_var("1.3.6.1.2.1.1.5.0".parse().unwrap());
    let resp2 = reg.process_with_access(&pdu2, &sec);
    assert_eq!(resp2.variables[0].value, Value::EndOfMibView);
    assert_eq!(resp2.variables[0].oid.to_string(), ".1.3.6.1.2.1.1.5.0");
}

#[test]
fn set_denied_by_write_view_returns_no_access() {
    let mut reg = sample_registry();
    let sec = secure_ctx(restricted_vacm());
    let mut pdu = Pdu::new(PduType::SetRequest, 1);
    pdu.variables.push(VarBind::new(
        "1.3.6.1.2.1.2.2.1.2.1".parse().unwrap(),
        Value::OctetString(b"x".to_vec()),
    ));
    let resp = reg.process_with_access(&pdu, &sec);
    assert_eq!(resp.status(), ErrorStatus::NoAccess);
    assert_eq!(resp.error_index, 1);
}

#[test]
fn getbulk_skips_inaccessible_rows() {
    let mut reg = sample_registry();
    let sec = secure_ctx(restricted_vacm());
    let pdu = {
        let mut p = Pdu::new(PduType::GetBulk, 1);
        p.error_status = 0;
        p.error_index = 10;
        p.variables
            .push(VarBind::null("1.3.6.1.2.1.1".parse().unwrap()));
        p
    };
    let resp = reg.process_with_access(&pdu, &sec);
    for vb in &resp.variables {
        assert!(
            vb.oid.as_slice().starts_with(&[1, 3, 6, 1, 2, 1, 1]),
            "leaked inaccessible OID {}",
            vb.oid.to_string()
        );
    }
}

#[test]
fn empty_vacm_is_permissive_via_process_with_access() {
    let mut reg = sample_registry();
    let sec = SecurityContext {
        security_model: 2,
        security_name: b"public".to_vec(),
        security_level: 0,
        context: Vec::new(),
        vacm: Some(Arc::new(Vacm::new())),
    };
    let pdu = Pdu::new(PduType::Get, 1).with_null_var("1.3.6.1.2.1.2.2.1.2.1".parse().unwrap());
    let resp = reg.process_with_access(&pdu, &sec);
    assert_eq!(resp.status(), ErrorStatus::NoError);
    assert_eq!(resp.variables[0].value, Value::OctetString(b"lo".to_vec()));
    let _ = AccessView::Read;
}

#[test]
fn most_specific_handler_owns_an_instance() {
    let mut reg: Registry<ScalarHandler> = Registry::new();
    reg.register(ScalarHandler::new(
        "1.3.6.1".parse().unwrap(),
        Value::Integer(1),
    ));
    reg.register(ScalarHandler::new(
        "1.3.6.1.4".parse().unwrap(),
        Value::Integer(2),
    ));
    let pdu = Pdu::new(PduType::Get, 1)
        .with_null_var("1.3.6.1.4.0".parse().unwrap())
        .with_null_var("1.3.6.1.0".parse().unwrap());
    let resp = reg.process(&pdu);
    assert_eq!(resp.variables[0].value, Value::Integer(2));
    assert_eq!(resp.variables[1].value, Value::Integer(1));
}

#[test]
fn get_answers_what_a_set_wrote() {
    let mut reg: Registry<ScalarHandler> = Registry::new();
    let root: Oid = "1.3.6.1.2.1.1.6".parse().unwrap();
    reg.register(ScalarHandler::new(root.clone(), Value::Integer(1)).writable());
    let mut pdu = Pdu::new(PduType::SetRequest, 4);
    pdu.variables
        .push(VarBind::new(root.child(0), Value::Integer(8)));
    let resp = reg.process(&pdu);
    assert_eq!(resp.pdu_type, PduType::Response);
    assert_eq!(resp.request_id, 4);
    assert_eq!(resp.status(), ErrorStatus::NoError);
    let get = Pdu::new(PduType::Get, 5).with_null_var(root.child(0));
    assert_eq!(reg.process(&get).variables[0].value, Value::Integer(8));
}

#[test]
fn set_of_an_unknown_object_is_refused() {
    let mut reg = sample_registry();
    let mut pdu = Pdu::new(PduType::SetRequest, 1);
    pdu.variables
        .push(VarBind::new("1.3.9.0".parse().unwrap(), Value::Integer(8)));
    let resp = reg.process(&pdu);
    assert!(!resp.status().is_ok());
    assert_eq!(resp.error_index, 1);
}

#[test]
fn replace_keeps_the_place_of_a_handler() {
    let mut reg: Registry<ScalarHandler> = Registry::new();
    let root: Oid = "1.3.6.1.2.1.1.6".parse().unwrap();
    reg.register(ScalarHandler::new(root.clone(), Value::Integer(1)));
    reg.register(ScalarHandler::new(
        "1.3.6.1.2.1.1.2".parse().unwrap(),
        Value::Integer(3),
    ));
    assert_eq!(reg.len(), 2);
    assert_eq!(reg.handlers()[1].root(), &root);
    reg.replace(1, ScalarHandler::new(root.clone(), Value::Integer(2)));
    let get = Pdu::new(PduType::Get, 5).with_null_var(root.child(0));
    assert_eq!(reg.process(&get).variables[0].value, Value::Integer(2));
}

fn writable_pair() -> Registry<Handlers> {
    let mut reg = Registry::new();
    reg.register(AnyHandler::Scalar(
        ScalarHandler::new("1.3.1".parse().unwrap(), Value::Integer(1)).writable(),
    ));
    let table: Oid = "1.3.2".parse().unwrap();
    reg.register(AnyHandler::Instances(
        MapHandler::new(table.clone())
            .with(table.child(1), Value::Integer(2))
            .with(table.child(2), Value::Integer(3))
            .writable(),
    ));
    reg
}

fn set(bindings: &[(&str, Value)]) -> Pdu {
    let mut pdu = Pdu::new(PduType::SetRequest, 1);
    for (oid, value) in bindings {
        pdu.variables
            .push(VarBind::new(oid.parse().unwrap(), value.clone()));
    }
    pdu
}

fn get(reg: &mut Registry<Handlers>, oid: &str) -> Value {
    let pdu = Pdu::new(PduType::Get, 1).with_null_var(oid.parse().unwrap());
    reg.process(&pdu).variables[0].value.clone()
}

#[test]
fn every_binding_of_a_set_reads_back() {
    let mut reg = writable_pair();
    let resp = reg.process(&set(&[
        ("1.3.1.0", Value::Integer(10)),
        ("1.3.2.2", Value::Integer(30)),
        ("1.3.1.0", Value::Integer(11)),
    ]));
    assert_eq!(resp.status(), ErrorStatus::NoError);
    assert_eq!(get(&mut reg, "1.3.1.0"), Value::Integer(11));
    assert_eq!(get(&mut reg, "1.3.2.2"), Value::Integer(30));
    assert_eq!(get(&mut reg, "1.3.2.1"), Value::Integer(2));
}

#[test]
fn a_failing_binding_leaves_the_others_unset() {
    let mut reg = writable_pair();
    let resp = reg.process(&set(&[
        ("1.3.1.0", Value::Integer(10)),
        ("1.3.2.9", Value::Integer(30)),
    ]));
    assert_eq!(resp.status(), ErrorStatus::NoCreation);
    assert_eq!(resp.error_index, 2);
    assert_eq!(get(&mut reg, "1.3.1.0"), Value::Integer(1));
}

#[test]
fn a_table_is_refused_only_when_it_is_committed() {
    let mut reg = writable_pair();
    reg.register(AnyHandler::Table(FnHandler::scalar(
        "1.3.3".parse().unwrap(),
        Value::Integer(5),
    )));
    let resp = reg.process(&set(&[
        ("1.3.1.0", Value::Integer(10)),
        ("1.3.3.0", Value::Integer(6)),
    ]));
    assert_eq!(resp.status(), ErrorStatus::NotWritable);
    assert_eq!(resp.error_index, 2);
    assert_eq!(get(&mut reg, "1.3.3.0"), Value::Integer(5));
    assert_eq!(get(&mut reg, "1.3.1.0"), Value::Integer(10));
}

#[test]
fn a_subtree_within_another_is_walked_in_its_place() {
    let outer: Oid = "1.3.4".parse().unwrap();
    let mut reg: Registry<Handlers> = Registry::new();
    reg.register(AnyHandler::Instances(
        MapHandler::new(outer.clone())
            .with(outer.child(1), Value::Integer(1))
            .with(outer.child(9), Value::Integer(9)),
    ));
    reg.register(AnyHandler::Scalar(ScalarHandler::new(
        outer.child(5),
        Value::Integer(5),
    )));
    let mut at = outer.clone();
    let mut seen = Vec::new();
    loop {
        let pdu = Pdu::new(PduType::GetNext, 1).with_null_var(at);
        let vb = reg.process(&pdu).variables.remove(0);
        if vb.value == Value::EndOfMibView {
            break;
        }
        seen.push(vb.oid.to_string());
        at = vb.oid;
    }
    assert_eq!(seen, vec![".1.3.4.1", ".1.3.4.5.0", ".1.3.4.9"]);
    assert_eq!(reg.get(&"1.3.4.5.0".parse().unwrap()), Value::Integer(5));
}

#[test]
fn the_last_of_equal_roots_answers() {
    let root: Oid = "1.3.7".parse().unwrap();
    let mut reg: Registry<Handlers> = Registry::new();
    let scalar = |n: i64| AnyHandler::Scalar(ScalarHandler::new("1.3.7".parse().unwrap(), Value::Integer(n)));
    reg.register(scalar(1));
    reg.register(scalar(2));
    assert_eq!(get(&mut reg, "1.3.7.0"), Value::Integer(2));
    let pdu = Pdu::new(PduType::GetNext, 1).with_null_var(root.clone());
    assert_eq!(reg.process(&pdu).variables[0].value, Value::Integer(2));
    assert_eq!(reg.owner_of(&root.child(0)), Some(1));
    let gone = reg.remove(1);
    assert_eq!(gone.root(), &root);
    assert_eq!(get(&mut reg, "1.3.7.0"), Value::Integer(1));
    assert_eq!(reg.into_handlers().len(), 1);
}

#[test]
fn registering_leaves_other_answers() {
    let mut reg = sample_registry();
    reg.register(AnyHandler::Scalar(ScalarHandler::new(
        "1.3.6.1.2.1.1".parse().unwrap(),
        Value::Integer(7),
    )));
    assert_eq!(
        get(&mut reg, "1.3.6.1.2.1.1.5.0"),
        Value::OctetString(b"agent01".to_vec())
    );
    assert_eq!(get(&mut reg, "1.3.6.1.2.1.1.0"), Value::Integer(7));
    assert_eq!(get(&mut reg, "1.3.6.1.2.1.1.8.0"), Value::NoSuchInstance);
    assert_eq!(get(&mut reg, "1.3.6.1.2.1.3.0"), Value::NoSuchObject);
}
