//! Localized fee ordering and deterministic application sequencing hooks.

pub mod errors;
pub mod fees;
pub mod guarantees;
pub mod market;

pub use errors::MempoolError;
pub use fees::{FeeLedger, FeeReceipt, Settlement};
pub use market::{
    BlockSelection, FeeQuote, FeeScope, LocalizedMempool, OrderingPolicy, PendingTransaction,
    PriorityFeePolicy, SubmittedTransaction,
};
