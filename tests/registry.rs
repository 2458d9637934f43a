use overseer::{ErrorKind, Registry, SubsystemError, SubsystemId};

#[test]
fn register_assigns_slots_in_order() {
    let mut reg = Registry::new();
    assert_eq!(reg.register(None, SubsystemId(10)), Ok(SubsystemId(10)));
    assert_eq!(reg.register(None, SubsystemId(20)), Ok(SubsystemId(20)));
    assert_eq!(reg.len(), 2);
    assert_eq!(reg.id_at(0), SubsystemId(10));
    assert_eq!(reg.id_at(1), SubsystemId(20));
    assert_eq!(reg.slot_of(SubsystemId(20)), Some(1));
    assert_eq!(reg.slot_of(SubsystemId(30)), None);
    assert!(reg.contains(SubsystemId(10)));
    assert!(!reg.contains(SubsystemId(30)));
}

#[test]
fn duplicate_id_is_refused_and_changes_nothing() {
    let mut reg = Registry::new();
    assert!(reg.register(None, SubsystemId(1)).is_ok());
    let again = reg.register(Some(SubsystemId(1)), SubsystemId(1));
    assert_eq!(again, Err(SubsystemError { kind: ErrorKind::DuplicateId }));
    assert_eq!(reg.len(), 1);
    assert!(reg.children(SubsystemId(1)).is_empty());
}

#[test]
fn spawned_child_is_linked_under_its_parent() {
    let mut reg = Registry::new();
    assert!(reg.register(None, SubsystemId(3)).is_ok());
    assert_eq!(reg.register(Some(SubsystemId(3)), SubsystemId(1)), Ok(SubsystemId(1)));
    assert_eq!(reg.register(Some(SubsystemId(3)), SubsystemId(2)), Ok(SubsystemId(2)));
    assert_eq!(reg.children(SubsystemId(3)), vec![SubsystemId(1), SubsystemId(2)]);
    assert!(reg.children(SubsystemId(1)).is_empty());
}

#[test]
fn root_spawn_records_no_parent() {
    let mut reg = Registry::new();
    assert!(reg.register(None, SubsystemId(8)).is_ok());
    assert!(reg.register(None, SubsystemId(9)).is_ok());
    assert!(reg.children(SubsystemId(8)).is_empty());
    assert!(reg.children(SubsystemId(9)).is_empty());
}
