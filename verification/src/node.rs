//! The node: round driving, block lifecycle and the consensus-to-execution
//! pipeline, as state machines without sockets, clocks or disks.

pub mod admission_guarantees;
pub mod arguments;
pub mod coordinator;
pub mod driver;
pub mod genesis;
pub mod guarantees;
pub mod lifecycle;
pub mod lifecycle_guarantees;
pub mod operation_guarantees;
pub mod payload;
pub mod pipeline;
pub mod pipeline_guarantees;
pub mod propagation;
pub mod proposal_source;
pub mod round;
pub mod round_guarantees;
pub mod service_guarantees;
pub mod setup_guarantees;
pub mod stage2;
pub mod timing_guarantees;
pub mod value_guarantees;
pub mod wire;
