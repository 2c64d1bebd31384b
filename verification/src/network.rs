//! Block propagation: erasure-coded shreds, relay planning and gossip rules.

pub mod guarantees;
pub mod kestrel_cast;
pub mod service;

pub use kestrel_cast::{
    KestrelCast, KestrelCastConfig, KestrelCastError, RelayCandidate, RelayPlan, Shred,
};
pub use service::{
    deterministic_drop, ConfiguredPeer, GossipConfig, GossipError, InboundShred,
    InboundTransaction, NetworkAction, NetworkEvent, NetworkFaults, NetworkHandle, OutboundRepair,
    OutboundShred, RunConfig, ShredRequest,
};
