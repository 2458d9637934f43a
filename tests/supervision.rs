use overseer::{
    recv_outcome, refused_spawn, spawn_outcome, try_recv_outcome, watch, ErrorKind,
    SubsystemError, SubsystemId, Verdict,
};

fn closed() -> SubsystemError {
    SubsystemError { kind: ErrorKind::ChannelClosed }
}

#[test]
fn finished_worker_halts_the_supervisor() {
    assert_eq!(watch(true), Verdict::Halt);
    assert_eq!(watch(false), Verdict::Continue);
}

#[test]
fn refused_spawn_is_reported_to_children_only() {
    assert_eq!(refused_spawn(None), None);
    assert_eq!(
        refused_spawn(Some(SubsystemId(2))),
        Some(SubsystemError { kind: ErrorKind::SpawnFailed })
    );
}

#[test]
fn try_recv_distinguishes_message_empty_and_closed() {
    assert_eq!(try_recv_outcome(Some(Some(7usize))), Ok(Some(7)));
    assert_eq!(try_recv_outcome::<usize>(None), Ok(None));
    assert_eq!(try_recv_outcome::<usize>(Some(None)), Err(closed()));
}

#[test]
fn recv_reports_closed_channel() {
    assert_eq!(recv_outcome(Some(3usize)), Ok(3));
    assert_eq!(recv_outcome::<usize>(None), Err(closed()));
}

#[test]
fn spawn_reply_or_supervisor_gone() {
    assert_eq!(spawn_outcome(Some(Ok(SubsystemId(4)))), Ok(SubsystemId(4)));
    let dup = SubsystemError { kind: ErrorKind::DuplicateId };
    assert_eq!(spawn_outcome(Some(Err(dup))), Err(dup));
    assert_eq!(spawn_outcome(None), Err(closed()));
}
