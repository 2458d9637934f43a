use overseer::{Delivery, Post, Registry, SubsystemId};

fn table(ids: &[usize]) -> Registry {
    let mut r = Registry::new();
    for &i in ids {
        assert!(r.register(None, SubsystemId(i)).is_ok());
    }
    r
}

fn broadcast(source: usize) -> Post {
    Post { source: SubsystemId(source), to: None }
}

fn direct(source: usize, to: usize) -> Post {
    Post { source: SubsystemId(source), to: Some(SubsystemId(to)) }
}

#[test]
fn broadcast_reaches_the_other_record_in_order() {
    // A records what it receives, B broadcasts 0..10.
    let reg = table(&[1, 2]);
    let batch: Vec<Post> = (0..10).map(|_| broadcast(2)).collect();
    let accepts: Vec<Vec<bool>> = (0..10).map(|_| vec![true, true]).collect();
    let plan = reg.plan(&batch, &accepts);
    let expected: Vec<Delivery> = (0..10).map(|e| Delivery { envelope: e, slot: 0 }).collect();
    assert_eq!(plan, expected);
}

#[test]
fn broadcast_never_returns_to_its_source() {
    let reg = table(&[1, 2, 3]);
    assert_eq!(reg.recipients(SubsystemId(2), None, &vec![true, true, true]), vec![0, 2]);
    assert_eq!(reg.recipients(SubsystemId(1), None, &vec![true, true, true]), vec![1, 2]);
}

#[test]
fn filtered_broadcast_skips_refusing_record() {
    // C (slot 2) refuses everything; A (slot 0) still sees every message.
    let reg = table(&[1, 2, 3]);
    let batch: Vec<Post> = (0..10).map(|_| broadcast(2)).collect();
    let accepts: Vec<Vec<bool>> = (0..10).map(|_| vec![true, true, false]).collect();
    let plan = reg.plan(&batch, &accepts);
    assert_eq!(plan.len(), 10);
    assert!(plan.iter().all(|d| d.slot == 0));
    assert!(plan.iter().enumerate().all(|(k, d)| d.envelope == k));
}

#[test]
fn direct_message_ignores_the_filter() {
    let reg = table(&[1, 2]);
    assert_eq!(reg.recipients(SubsystemId(1), Some(SubsystemId(2)), &vec![]), vec![1]);
    assert_eq!(reg.recipients(SubsystemId(1), Some(SubsystemId(1)), &vec![]), vec![0]);
}

#[test]
fn direct_round_trip_to_spawned_child() {
    let mut reg = table(&[4]);
    let child = reg.register(Some(SubsystemId(4)), SubsystemId(7));
    assert_eq!(child, Ok(SubsystemId(7)));
    assert_eq!(reg.slot_of(SubsystemId(7)), Some(1));
    let batch: Vec<Post> = (0..10).map(|_| direct(4, 7)).collect();
    let accepts: Vec<Vec<bool>> = (0..10).map(|_| Vec::new()).collect();
    let plan = reg.plan(&batch, &accepts);
    let expected: Vec<Delivery> = (0..10).map(|e| Delivery { envelope: e, slot: 1 }).collect();
    assert_eq!(plan, expected);
}

#[test]
fn unknown_direct_target_is_dropped() {
    let reg = table(&[5]);
    let batch = vec![direct(5, 99), broadcast(5)];
    let accepts = vec![Vec::new(), vec![true]];
    assert!(reg.plan(&batch, &accepts).is_empty());
    assert!(reg.recipients(SubsystemId(5), Some(SubsystemId(99)), &vec![]).is_empty());
}

#[test]
fn per_source_order_is_kept_across_interleaved_sources() {
    let reg = table(&[1, 2, 3]);
    let batch = vec![broadcast(1), direct(2, 3), broadcast(1), direct(1, 3)];
    let accepts = vec![vec![true, true, true], Vec::new(), vec![true, false, true], Vec::new()];
    let plan = reg.plan(&batch, &accepts);
    let expected = vec![
        Delivery { envelope: 0, slot: 1 },
        Delivery { envelope: 0, slot: 2 },
        Delivery { envelope: 1, slot: 2 },
        Delivery { envelope: 2, slot: 2 },
        Delivery { envelope: 3, slot: 2 },
    ];
    assert_eq!(plan, expected);
}

#[test]
fn empty_table_routes_nothing() {
    let reg = Registry::new();
    assert_eq!(reg.len(), 0);
    assert!(reg.recipients(SubsystemId(1), None, &vec![]).is_empty());
    assert!(reg.plan(&vec![broadcast(1)], &vec![vec![]]).is_empty());
}
