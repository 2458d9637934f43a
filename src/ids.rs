use vstd::prelude::*;

verus! {

/// Identifies a subsystem within one supervisor.
#[derive(Clone, Copy, Debug, PartialEq, Eq, Hash, Structural)]
pub struct SubsystemId(pub usize);

/// The kinds of fault the supervisor reports to a caller.
#[derive(Clone, Copy, Debug, PartialEq, Eq, Structural)]
pub enum ErrorKind {
    /// The other end of a channel has gone away.
    ChannelClosed,
    /// A spawn asked for an identifier that is already registered.
    DuplicateId,
    /// The executor refused to run the new task.
    SpawnFailed,
}

/// A fault reported to a subsystem or to the embedder.
#[derive(Clone, Copy, Debug, PartialEq, Eq, Structural)]
pub struct SubsystemError {
    pub kind: ErrorKind,
}

impl SubsystemError {
    /// An error of the given kind.
    pub fn new(kind: ErrorKind) -> (e: SubsystemError)
        ensures
            e.kind == kind,
    {
        SubsystemError { kind }
    }
}

} // verus!
