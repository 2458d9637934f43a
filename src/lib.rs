//! Supervision and message routing for a fixed population of long-lived
//! cooperative workers ("subsystems").
//!
//! The library holds the supervisor's bookkeeping and every routing decision:
//! which records exist, who spawned whom, which inbound
//! channels a broadcast or a direct message goes to, and in what order a batch
//! of envelopes is delivered. Driving the channels and the executor is left to
//! the embedding program, which hands the library plain values.
use vstd::prelude::*;

pub mod context;
pub mod ids;
pub mod registry;
pub mod routing;
pub mod supervision;

pub use ids::{ErrorKind, SubsystemError, SubsystemId};
pub use registry::{Registry, Table};
pub use routing::{Delivery, Post};
pub use supervision::{refused_spawn, watch, Verdict, CHANNEL_CAPACITY};
pub use context::{recv_outcome, spawn_outcome, try_recv_outcome};
