//! Admission and settlement failures.

use vstd::prelude::*;

verus! {

/// Why a transaction or a settlement was refused.
#[derive(Clone, Copy, Debug, PartialEq, Eq, Structural)]
pub enum MempoolError {
    /// The per-scope block limit must be nonzero.
    ZeroScopeLimit,
    /// An object-scoped transaction must declare that object as touched.
    InvalidScope,
    ZeroComputeLimit,
    DuplicateTransaction,
    /// An application ordering policy is already registered for this scope.
    PolicyAlreadyRegistered,
    FeeOverflow,
    FeeCapTooLow { required: u128, offered: u128 },
    /// Actual compute exceeded the transaction limit.
    ComputeLimitExceeded,
    InsufficientBalance,
    MissingReservation,
    /// The fee reservation is not yet bound to a certified settlement.
    MissingSettlementBinding,
    /// The fee reservation does not match the transaction or certified settlement.
    ReservationMismatch,
}

} // verus!
