//! Kestrel: consensus, fees, execution scheduling and propagation logic of a
//! blockchain node, with the behaviour of every function stated and proved.

pub mod bytes;
pub mod consensus;
pub mod crypto;
pub mod execution;
pub mod mempool;
pub mod network;
pub mod node;
pub mod ordered;
pub mod types;
