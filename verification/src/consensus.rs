//! Kestrel-BFT ordering, dual-path finality, and local-timeout view changes.

pub mod agreement;
pub mod certificates;
pub mod errors;
pub mod guarantees;
pub mod proposals;
pub mod replica;
pub mod validators;
pub mod votes;

pub use certificates::{verify_certificate, CertificateKind, QuorumCertificate, VoteCollector};
pub use errors::ConsensusError;
pub use proposals::{fee_commitment, FinalizedOrder, Proposal, SignedProposal};
pub use replica::{Replica, ReplicaLock, ReplicaSnapshot, VoteSlot};
pub use validators::{
    Validator, ValidatorSet, MAX_BYZANTINE_PERCENT_EXCLUSIVE, MAX_OFFLINE_PERCENT_INCLUSIVE,
};
pub use votes::{
    verify_equivocation_evidence, verify_vote, EquivocationEvidence, EvidenceBook,
    SlashingDirective, SlashingOffence, SlashingPolicy, Vote, VotePhase,
};
