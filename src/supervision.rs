use vstd::prelude::*;

use crate::ids::{ErrorKind, SubsystemError, SubsystemId};

verus! {

/// Capacity of each bounded channel between the supervisor and a worker;
/// a full channel suspends its sender.
pub const CHANNEL_CAPACITY: usize = 1024;

/// What the supervisor does once a tick's watch step has looked at the
/// completion queue.
#[derive(Clone, Copy, Debug, PartialEq, Eq, Structural)]
pub enum Verdict {
    /// Yield and start the next tick.
    Continue,
    /// A worker exited: subsystems are immortal, so the supervisor stops.
    Halt,
}

/// The watch step: any finished worker task is an unexpected exit and halts
/// the supervisor in the tick that observes it.
pub fn watch(finished: bool) -> (v: Verdict)
    ensures
        v == Verdict::Halt <==> finished,
{
    if finished {
        Verdict::Halt
    } else {
        Verdict::Continue
    }
}

/// The answer to a spawn whose task the executor refused to run: a child
/// spawn gets `SpawnFailed` through its reply, while a root spawn at
/// construction has no one to tell and is unrecoverable (`None`).
pub fn refused_spawn(parent: Option<SubsystemId>) -> (r: Option<SubsystemError>)
    ensures
        parent is None ==> r is None,
        parent is Some ==> r == Some(SubsystemError { kind: ErrorKind::SpawnFailed }),
{
    match parent {
        Some(_) => Some(SubsystemError::new(ErrorKind::SpawnFailed)),
        None => None,
    }
}

} // verus!
