//! Consensus validation failures.

use vstd::prelude::*;

use crate::crypto::CryptoError;
use crate::types::Hash256;

verus! {

/// Why a consensus input was refused.
#[derive(Debug, PartialEq, Eq)]
pub enum ConsensusError {
    Crypto(CryptoError),
    /// A validator set requires at least four validators.
    TooFewValidators,
    /// Validator IDs must be unique and stake must be nonzero.
    InvalidValidatorSet,
    /// The validator stake sum overflowed.
    StakeOverflow,
    UnknownValidator(Hash256),
    /// The private key does not match the admitted validator key.
    PrivateKeyMismatch,
    /// Byzantine stake must be strictly below 20%.
    ByzantineBudgetExceeded,
    /// Separate crash/offline stake must not exceed 20%.
    OfflineBudgetExceeded,
    /// A vote does not match its collector target.
    VoteTargetMismatch,
    /// A validator equivocated within one collector.
    Equivocation(Hash256),
    /// Equivocation evidence must contain two valid conflicting votes for one round.
    InvalidEquivocationEvidence,
    EvidenceAlreadyApplied,
    /// Equivocation slash basis points must be between 1 and 10,000.
    InvalidSlashBasisPoints,
    AggregationQueueFull,
    AggregationWorkerStopped,
    /// The vote aggregation worker could not be started.
    AggregationWorker(String),
    /// A certificate signer set must be nonempty, sorted, and unique.
    InvalidSignerSet,
    /// The certificate signed-stake field is incorrect.
    IncorrectSignedStake,
    InsufficientStake { required: u128, received: u128 },
    /// A proposal does not match the replica height or view.
    ProposalRoundMismatch,
    /// A proposal was not produced by the deterministic leader.
    WrongLeader,
    /// The proposal parent or block ID is invalid.
    InvalidProposal,
    /// A proposal conflicts with the replica lock without a higher prepare certificate.
    LockedOnDifferentBlock,
    /// A certificate has the wrong kind, height, or view.
    CertificateRoundMismatch,
    /// An honest replica refused to double vote.
    LocalDoubleVote,
    /// An honest replica refused to cast both order and timeout votes in one view.
    ConflictingFirstRoundVote,
    /// A durable replica snapshot is internally inconsistent.
    InvalidReplicaSnapshot,
    ViewOverflow,
    HeightOverflow,
    /// Conflicting blocks were finalized at one height.
    SafetyViolation { height: u64, first: Hash256, second: Hash256 },
}

} // verus!
