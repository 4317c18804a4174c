use netsnmp_agent::pdu::ErrorStatus;
use netsnmp_agent::row::{transition, RowStatus};
use netsnmp_agent::value::Value;

#[test]
fn from_i64_roundtrips() {
    for v in 1..=6i64 {
        let rs = RowStatus::from_i64(v).unwrap();
        assert_eq!(rs.as_i64(), v);
    }
    assert!(RowStatus::from_i64(0).is_none());
    assert!(RowStatus::from_i64(7).is_none());
    assert!(RowStatus::from_i64(-1).is_none());
}

#[test]
fn from_value_accepts_integer_and_gauge() {
    assert_eq!(
        RowStatus::from_value(&Value::Integer(4)),
        Some(RowStatus::CreateAndGo)
    );
    assert_eq!(
        RowStatus::from_value(&Value::Gauge32(6)),
        Some(RowStatus::Destroy)
    );
    assert_eq!(RowStatus::from_value(&Value::OctetString(vec![1])), None);
}

#[test]
fn create_and_go_creates_active_row() {
    let next = transition(None, RowStatus::CreateAndGo, true).unwrap();
    assert_eq!(next, Some(RowStatus::Active));
}

#[test]
fn create_and_go_missing_required_is_inconsistent_name() {
    let err = transition(None, RowStatus::CreateAndGo, false).unwrap_err();
    assert_eq!(err, ErrorStatus::InconsistentName);
}

#[test]
fn create_and_go_on_existing_is_inconsistent_value() {
    let err = transition(Some(RowStatus::Active), RowStatus::CreateAndGo, true).unwrap_err();
    assert_eq!(err, ErrorStatus::InconsistentValue);
}

#[test]
fn create_and_wait_yields_not_in_service_when_complete() {
    let next = transition(None, RowStatus::CreateAndWait, true).unwrap();
    assert_eq!(next, Some(RowStatus::NotInService));
}

#[test]
fn create_and_wait_yields_not_ready_when_incomplete() {
    let next = transition(None, RowStatus::CreateAndWait, false).unwrap();
    assert_eq!(next, Some(RowStatus::NotReady));
}

#[test]
fn destroy_removes_existing_row() {
    let next = transition(Some(RowStatus::Active), RowStatus::Destroy, true).unwrap();
    assert_eq!(next, None);
}

#[test]
fn destroy_absent_is_no_op_success() {
    let next = transition(None, RowStatus::Destroy, true).unwrap();
    assert_eq!(next, None);
}

#[test]
fn active_activates_not_in_service_row() {
    let next = transition(Some(RowStatus::NotInService), RowStatus::Active, true).unwrap();
    assert_eq!(next, Some(RowStatus::Active));
}

#[test]
fn active_on_absent_row_is_inconsistent_name() {
    let err = transition(None, RowStatus::Active, true).unwrap_err();
    assert_eq!(err, ErrorStatus::InconsistentName);
}

#[test]
fn active_with_missing_required_is_inconsistent_value() {
    let err = transition(Some(RowStatus::NotInService), RowStatus::Active, false).unwrap_err();
    assert_eq!(err, ErrorStatus::InconsistentValue);
}

#[test]
fn not_in_service_takes_active_row_offline() {
    let next = transition(Some(RowStatus::Active), RowStatus::NotInService, true).unwrap();
    assert_eq!(next, Some(RowStatus::NotInService));
}

#[test]
fn not_in_service_on_not_ready_is_inconsistent_value() {
    let err = transition(Some(RowStatus::NotReady), RowStatus::NotInService, false).unwrap_err();
    assert_eq!(err, ErrorStatus::InconsistentValue);
}

#[test]
fn display_includes_name_and_value() {
    assert_eq!(RowStatus::Active.to_string(), "active(1)");
    assert_eq!(RowStatus::CreateAndGo.to_string(), "createAndGo(4)");
}

#[test]
fn active_rows_stay_complete() {
    let states = [
        None,
        Some(RowStatus::Active),
        Some(RowStatus::NotInService),
        Some(RowStatus::NotReady),
    ];
    for current in states {
        for v in 1..=6i64 {
            let requested = RowStatus::from_i64(v).unwrap();
            if let Ok(next) = transition(current, requested, false) {
                assert!(next != Some(RowStatus::Active) || current == Some(RowStatus::Active));
            }
        }
    }
}

#[test]
fn create_values_are_the_two_creations() {
    assert!(RowStatus::CreateAndGo.is_create());
    assert!(RowStatus::CreateAndWait.is_create());
    assert!(!RowStatus::Active.is_create());
    assert!(!RowStatus::Destroy.is_create());
}
