use vstd::prelude::*;

use crate::ids::{ErrorKind, SubsystemError, SubsystemId};

verus! {

/// The error every receive path reports once the supervisor is gone.
pub open spec fn closed_error() -> SubsystemError {
    SubsystemError { kind: ErrorKind::ChannelClosed }
}

/// The result of a non-blocking receive, from one poll of the inbound
/// channel: `Some(Some(m))` is a message, `Some(None)` the end of the stream,
/// `None` nothing yet.
pub fn try_recv_outcome<M>(polled: Option<Option<M>>) -> (r: Result<Option<M>, SubsystemError>)
    ensures
        r == match polled {
            Some(Some(m)) => Ok(Some(m)),
            Some(None) => Err(closed_error()),
            None => Ok::<Option<M>, SubsystemError>(None),
        },
{
    match polled {
        Some(Some(m)) => Ok(Some(m)),
        Some(None) => Err(SubsystemError::new(ErrorKind::ChannelClosed)),
        None => Ok(None),
    }
}

/// The result of a blocking receive, from the next item of the inbound
/// stream (`None` once the supervisor dropped its sender).
pub fn recv_outcome<M>(next: Option<M>) -> (r: Result<M, SubsystemError>)
    ensures
        r == match next {
            Some(m) => Ok(m),
            None => Err::<M, SubsystemError>(closed_error()),
        },
{
    match next {
        Some(m) => Ok(m),
        None => Err(SubsystemError::new(ErrorKind::ChannelClosed)),
    }
}

/// The result of a spawn request, from what came back on its one-shot reply
/// channel (`None` when the supervisor dropped the reply unanswered).
pub fn spawn_outcome(reply: Option<Result<SubsystemId, SubsystemError>>) -> (r: Result<
    SubsystemId,
    SubsystemError,
>)
    ensures
        r == match reply {
            Some(answer) => answer,
            None => Err::<SubsystemId, SubsystemError>(closed_error()),
        },
{
    match reply {
        Some(answer) => answer,
        None => Err(SubsystemError::new(ErrorKind::ChannelClosed)),
    }
}

} // verus!
