//! Honest replica safety state.

use std::sync::Arc;

use vstd::prelude::*;

use crate::bytes::same_bytes;
use crate::consensus::certificates::{
    certificate_check, verify_certificate, CertificateKind, CertificateModel, QuorumCertificate,
};
use crate::consensus::errors::ConsensusError;
use crate::consensus::proposals::{id_matches, Proposal, ProposalModel};
use crate::consensus::validators::{leader_of, member, ValidatorModel, ValidatorSet};
use crate::consensus::votes::{
    phase_tag, signed_vote, vote_phase_tag, vote_result, Vote, VoteModel, VotePhase,
};
use crate::crypto::AggregateSignatureScheme;
use crate::ordered::{OrderedMap, SortKey};
use crate::types::{zero_hash, Hash256};

verus! {

/// The one vote that a replica may cast in a round and phase.
#[derive(Clone, Copy, Debug, PartialEq, Eq, Structural)]
pub struct VoteSlot {
    pub height: u64,
    pub view: u64,
    pub phase: VotePhase,
}

impl SortKey for VoteSlot {
    open spec fn precedes(self, other: Self) -> bool {
        ||| self.height < other.height
        ||| self.height == other.height && self.view < other.view
        ||| self.height == other.height && self.view == other.view && phase_tag(self.phase)
            < phase_tag(other.phase)
    }

    proof fn precedes_irreflexive(x: Self) {
    }

    proof fn precedes_transitive(x: Self, y: Self, z: Self) {
    }

    proof fn precedes_total(x: Self, y: Self) {
    }

    fn is_before(&self, other: &Self) -> (before: bool) {
        self.height < other.height || (self.height == other.height && (self.view < other.view
            || (self.view == other.view && vote_phase_tag(self.phase) < vote_phase_tag(
            other.phase,
        ))))
    }
}

/// The prepared block that a replica stands by.
#[derive(Clone, Copy, Debug, PartialEq, Eq)]
pub struct ReplicaLock {
    pub height: u64,
    pub view: u64,
    pub block_id: Hash256,
}

/// Durable consensus safety state. Persist before transmitting a newly signed vote.
#[derive(Debug, PartialEq, Eq)]
pub struct ReplicaSnapshot {
    pub height: u64,
    pub view: u64,
    pub parent_id: Hash256,
    pub lock: Option<ReplicaLock>,
    pub votes: OrderedMap<VoteSlot, Hash256>,
    pub finalized: OrderedMap<u64, Hash256>,
}

/// The value of the durable safety state.
pub struct SafetyState {
    pub height: u64,
    pub view: u64,
    pub parent_id: Hash256,
    pub lock: Option<ReplicaLock>,
    pub votes: Map<VoteSlot, Hash256>,
    pub finalized: Map<u64, Hash256>,
}

impl View for ReplicaSnapshot {
    type V = SafetyState;

    open spec fn view(&self) -> SafetyState {
        SafetyState {
            height: self.height,
            view: self.view,
            parent_id: self.parent_id,
            lock: self.lock,
            votes: self.votes@,
            finalized: self.finalized@,
        }
    }
}

/// Who a replica is: its identity and key, the stake table and the scheme.
pub struct ReplicaIdentity<S> {
    pub id: Hash256,
    pub private_key: Seq<u8>,
    pub table: Seq<ValidatorModel>,
    pub scheme: S,
}

/// Whether a private key belongs to the identity's admitted validator key.
pub open spec fn key_check<S: AggregateSignatureScheme>(identity: ReplicaIdentity<S>) -> Result<
    (),
    ConsensusError,
> {
    match member(identity.table, identity.id) {
        None => Err(ConsensusError::UnknownValidator(identity.id)),
        Some(validator) => match identity.scheme.derived_key(identity.private_key) {
            Err(error) => Err(ConsensusError::Crypto(error)),
            Ok(key) => if key != validator.public_key {
                Err(ConsensusError::PrivateKeyMismatch)
            } else {
                Ok(())
            },
        },
    }
}

/// Whether durable state can have been written by a replica.
pub open spec fn snapshot_consistent(state: SafetyState) -> bool {
    &&& state.height != 0
    &&& state.lock matches Some(lock) ==> lock.height == state.height && lock.view <= state.view
    &&& forall|height: u64| #[trigger] state.finalized.contains_key(height) ==> height < state.height
}

/// The first-round vote that excludes a phase in the same view.
pub open spec fn opposing(phase: VotePhase) -> Option<VotePhase> {
    match phase {
        VotePhase::Order => Some(VotePhase::Timeout),
        VotePhase::Timeout => Some(VotePhase::Order),
        VotePhase::Commit => None,
    }
}

/// The vote slot of a phase in the current round.
pub open spec fn slot(state: SafetyState, phase: VotePhase) -> VoteSlot {
    VoteSlot { height: state.height, view: state.view, phase }
}

/// Why a replica refuses to vote for a block in the current round.
pub open spec fn cast_refusal(state: SafetyState, block_id: Hash256, phase: VotePhase) -> Option<
    ConsensusError,
> {
    if opposing(phase) matches Some(other) && state.votes.contains_key(slot(state, other)) {
        Some(ConsensusError::ConflictingFirstRoundVote)
    } else if state.votes.contains_key(slot(state, phase)) && state.votes[slot(state, phase)]
        != block_id {
        Some(ConsensusError::LocalDoubleVote)
    } else {
        None
    }
}

/// The state after a vote was recorded.
pub open spec fn with_cast(state: SafetyState, block_id: Hash256, phase: VotePhase) -> SafetyState {
    SafetyState { votes: state.votes.insert(slot(state, phase), block_id), ..state }
}

/// What casting a vote gives, and the state it leaves.
pub open spec fn cast<S: AggregateSignatureScheme>(
    state: SafetyState,
    identity: ReplicaIdentity<S>,
    block_id: Hash256,
    phase: VotePhase,
) -> (SafetyState, Result<VoteModel, ConsensusError>) {
    match cast_refusal(state, block_id, phase) {
        Some(error) => (state, Err(error)),
        None => (
            with_cast(state, block_id, phase),
            signed_vote(
                identity.id,
                identity.private_key,
                state.height,
                state.view,
                block_id,
                phase,
                identity.scheme,
            ),
        ),
    }
}

/// Why a replica refuses a proposal.
pub open spec fn proposal_refusal<S: AggregateSignatureScheme>(
    state: SafetyState,
    identity: ReplicaIdentity<S>,
    proposal: ProposalModel,
) -> Option<ConsensusError> {
    if proposal.height != state.height || proposal.view != state.view {
        Some(ConsensusError::ProposalRoundMismatch)
    } else if proposal.proposer != leader_of(identity.table, state.height, state.view).id {
        Some(ConsensusError::WrongLeader)
    } else if proposal.parent_id != state.parent_id || !id_matches(proposal) {
        Some(ConsensusError::InvalidProposal)
    } else {
        match state.lock {
            None => None,
            Some(lock) => if proposal.block_id == lock.block_id {
                None
            } else {
                match proposal.justify {
                    None => Some(ConsensusError::LockedOnDifferentBlock),
                    Some(justify) => match certificate_check(
                        justify,
                        identity.table,
                        identity.scheme,
                    ) {
                        Err(error) => Some(error),
                        Ok(()) => if unlocks(justify, lock, proposal.block_id) {
                            None
                        } else {
                            Some(ConsensusError::LockedOnDifferentBlock)
                        },
                    },
                }
            },
        }
    }
}

/// A prepare certificate for the block from a later view releases a lock.
pub open spec fn unlocks(justify: CertificateModel, lock: ReplicaLock, block_id: Hash256) -> bool {
    &&& justify.kind == CertificateKind::Prepare
    &&& justify.height == lock.height
    &&& justify.view > lock.view
    &&& justify.block_id == block_id
}

/// What voting for a proposal gives, and the state it leaves.
pub open spec fn order_step<S: AggregateSignatureScheme>(
    state: SafetyState,
    identity: ReplicaIdentity<S>,
    proposal: ProposalModel,
) -> (SafetyState, Result<VoteModel, ConsensusError>) {
    match proposal_refusal(state, identity, proposal) {
        Some(error) => (state, Err(error)),
        None => cast(state, identity, proposal.block_id, VotePhase::Order),
    }
}

/// Why a replica refuses to commit to a prepared block.
pub open spec fn commit_refusal<S: AggregateSignatureScheme>(
    state: SafetyState,
    identity: ReplicaIdentity<S>,
    prepare: CertificateModel,
) -> Option<ConsensusError> {
    match certificate_check(prepare, identity.table, identity.scheme) {
        Err(error) => Some(error),
        Ok(()) => if prepare.kind != CertificateKind::Prepare || prepare.height != state.height
            || prepare.view != state.view {
            Some(ConsensusError::CertificateRoundMismatch)
        } else if state.lock matches Some(lock) && lock.height == prepare.height && lock.block_id
            != prepare.block_id && lock.view >= prepare.view {
            Some(ConsensusError::LockedOnDifferentBlock)
        } else {
            None
        },
    }
}

/// The state locked on a prepared block.
pub open spec fn locked(state: SafetyState, prepare: CertificateModel) -> SafetyState {
    SafetyState {
        lock: Some(
            ReplicaLock {
                height: prepare.height,
                view: prepare.view,
                block_id: prepare.block_id,
            },
        ),
        ..state
    }
}

/// What committing to a prepared block gives, and the state it leaves.
pub open spec fn commit_step<S: AggregateSignatureScheme>(
    state: SafetyState,
    identity: ReplicaIdentity<S>,
    prepare: CertificateModel,
) -> (SafetyState, Result<VoteModel, ConsensusError>) {
    match commit_refusal(state, identity, prepare) {
        Some(error) => (state, Err(error)),
        None => cast(locked(state, prepare), identity, prepare.block_id, VotePhase::Commit),
    }
}

/// What a local timeout gives, and the state it leaves.
pub open spec fn timeout_step<S: AggregateSignatureScheme>(
    state: SafetyState,
    identity: ReplicaIdentity<S>,
) -> (SafetyState, Result<Option<VoteModel>, ConsensusError>) {
    if state.votes.contains_key(slot(state, VotePhase::Order)) {
        (state, Ok(None))
    } else {
        let (next, result) = cast(state, identity, zero_hash(), VotePhase::Timeout);
        (
            next,
            match result {
                Ok(vote) => Ok(Some(vote)),
                Err(error) => Err(error),
            },
        )
    }
}

/// What a timeout certificate does.
pub open spec fn advance_step<S: AggregateSignatureScheme>(
    state: SafetyState,
    identity: ReplicaIdentity<S>,
    timeout: CertificateModel,
) -> (SafetyState, Result<(), ConsensusError>) {
    match certificate_check(timeout, identity.table, identity.scheme) {
        Err(error) => (state, Err(error)),
        Ok(()) => if timeout.kind != CertificateKind::Timeout || timeout.height != state.height
            || timeout.view != state.view {
            (state, Err(ConsensusError::CertificateRoundMismatch))
        } else if state.view == u64::MAX {
            (state, Err(ConsensusError::ViewOverflow))
        } else {
            (SafetyState { view: (state.view + 1) as u64, ..state }, Ok(()))
        },
    }
}

/// What a final certificate does.
pub open spec fn finalize_step<S: AggregateSignatureScheme>(
    state: SafetyState,
    identity: ReplicaIdentity<S>,
    certificate: CertificateModel,
) -> (SafetyState, Result<Hash256, ConsensusError>) {
    match certificate_check(certificate, identity.table, identity.scheme) {
        Err(error) => (state, Err(error)),
        Ok(()) => if state.finalized.contains_key(certificate.height) {
            let existing = state.finalized[certificate.height];
            if existing != certificate.block_id {
                (
                    state,
                    Err(
                        ConsensusError::SafetyViolation {
                            height: certificate.height,
                            first: existing,
                            second: certificate.block_id,
                        },
                    ),
                )
            } else {
                (state, Ok(existing))
            }
        } else if !(certificate.kind == CertificateKind::Fast || certificate.kind
            == CertificateKind::Commit) || certificate.height != state.height {
            (state, Err(ConsensusError::CertificateRoundMismatch))
        } else {
            let recorded = SafetyState {
                finalized: state.finalized.insert(certificate.height, certificate.block_id),
                parent_id: certificate.block_id,
                ..state
            };
            if state.height == u64::MAX {
                (recorded, Err(ConsensusError::HeightOverflow))
            } else {
                (
                    SafetyState {
                        height: (state.height + 1) as u64,
                        view: 0,
                        lock: None,
                        ..recorded
                    },
                    Ok(certificate.block_id),
                )
            }
        },
    }
}

/// The value of a result that may carry a vote.
pub open spec fn optional_vote_result(result: Result<Option<Vote>, ConsensusError>) -> Result<
    Option<VoteModel>,
    ConsensusError,
> {
    match result {
        Ok(Some(vote)) => Ok(Some(vote@)),
        Ok(None) => Ok(None),
        Err(error) => Err(error),
    }
}

/// Honest replica safety state and deterministic local view timer transitions.
pub struct Replica<S: AggregateSignatureScheme> {
    id: Hash256,
    private_key: Vec<u8>,
    validators: ValidatorSet,
    scheme: Arc<S>,
    height: u64,
    view: u64,
    parent_id: Hash256,
    lock: Option<ReplicaLock>,
    votes: OrderedMap<VoteSlot, Hash256>,
    finalized: OrderedMap<u64, Hash256>,
}

impl<S: AggregateSignatureScheme> Replica<S> {
    /// The safety state of the replica.
    pub closed spec fn safety(&self) -> SafetyState {
        SafetyState {
            height: self.height,
            view: self.view,
            parent_id: self.parent_id,
            lock: self.lock,
            votes: self.votes@,
            finalized: self.finalized@,
        }
    }
}

impl<S: AggregateSignatureScheme> Replica<S> {
    /// Who the replica is.
    pub closed spec fn identity(&self) -> ReplicaIdentity<S> {
        ReplicaIdentity {
            id: self.id,
            private_key: self.private_key@,
            table: self.validators@,
            scheme: *self.scheme,
        }
    }

    /// Checks that a private key belongs to an admitted validator key.
    fn check_key(id: Hash256, private_key: &[u8], validators: &ValidatorSet, scheme: &S) -> (result:
        Result<(), ConsensusError>)
        ensures
            result == key_check(
                ReplicaIdentity {
                    id,
                    private_key: private_key@,
                    table: validators@,
                    scheme: *scheme,
                },
            ),
    {
        match validators.validator(id) {
            None => Err(ConsensusError::UnknownValidator(id)),
            Some(validator) => match scheme.public_key(private_key) {
                Err(error) => Err(ConsensusError::Crypto(error)),
                Ok(key) => if same_bytes(&key, &validator.public_key) {
                    Ok(())
                } else {
                    Err(ConsensusError::PrivateKeyMismatch)
                },
            },
        }
    }

    /// Creates a replica and ensures its private key matches its admitted validator key.
    ///
    /// # Errors
    ///
    /// Rejects an unknown identity or mismatched private key.
    pub fn new(
        id: Hash256,
        private_key: Vec<u8>,
        validators: ValidatorSet,
        scheme: Arc<S>,
        height: u64,
        parent_id: Hash256,
    ) -> (result: Result<Self, ConsensusError>)
        ensures
            ({
                let identity = ReplicaIdentity {
                    id,
                    private_key: private_key@,
                    table: validators@,
                    scheme: *scheme,
                };
                match result {
                    Ok(replica) => key_check(identity) is Ok && replica.identity() == identity
                        && replica.safety() == (SafetyState {
                        height,
                        view: 0,
                        parent_id,
                        lock: None,
                        votes: Map::empty(),
                        finalized: Map::empty(),
                    }),
                    Err(error) => key_check(identity) == Err::<(), ConsensusError>(error),
                }
            }),
    {
        match Self::check_key(id, &private_key, &validators, &*scheme) {
            Ok(()) => {},
            Err(error) => {
                return Err(error);
            },
        }
        Ok(
            Replica {
                id,
                private_key,
                validators,
                scheme,
                height,
                view: 0,
                parent_id,
                lock: None,
                votes: OrderedMap::new(),
                finalized: OrderedMap::new(),
            },
        )
    }

    /// Restores an authenticated replica from previously durable safety state.
    ///
    /// # Errors
    ///
    /// Rejects unknown identities, mismatched keys, or internally inconsistent state.
    pub fn restore(
        id: Hash256,
        private_key: Vec<u8>,
        validators: ValidatorSet,
        scheme: Arc<S>,
        snapshot: ReplicaSnapshot,
    ) -> (result: Result<Self, ConsensusError>)
        ensures
            ({
                let identity = ReplicaIdentity {
                    id,
                    private_key: private_key@,
                    table: validators@,
                    scheme: *scheme,
                };
                match result {
                    Ok(replica) => key_check(identity) is Ok && snapshot_consistent(snapshot@)
                        && replica.identity() == identity && replica.safety() == snapshot@,
                    Err(error) => match key_check(identity) {
                        Err(refused) => error == refused,
                        Ok(()) => !snapshot_consistent(snapshot@) && error
                            == ConsensusError::InvalidReplicaSnapshot,
                    },
                }
            }),
    {
        match Self::check_key(id, &private_key, &validators, &*scheme) {
            Ok(()) => {},
            Err(error) => {
                return Err(error);
            },
        }
        let lock_is_sound = match &snapshot.lock {
            Some(lock) => lock.height == snapshot.height && lock.view <= snapshot.view,
            None => true,
        };
        let history_is_sound = match snapshot.finalized.last_key() {
            Some(height) => height < snapshot.height,
            None => true,
        };
        proof {
            let finalized = snapshot@.finalized;
            assert(history_is_sound == forall|height: u64| #[trigger]
                finalized.contains_key(height) ==> height < snapshot.height) by {
                if !history_is_sound {
                    let last = choose|last: u64| #[trigger]
                        finalized.contains_key(last) && last >= snapshot.height;
                    assert(finalized.contains_key(last));
                }
            }
        }
        if snapshot.height == 0 || !lock_is_sound || !history_is_sound {
            return Err(ConsensusError::InvalidReplicaSnapshot);
        }
        Ok(
            Replica {
                id,
                private_key,
                validators,
                scheme,
                height: snapshot.height,
                view: snapshot.view,
                parent_id: snapshot.parent_id,
                lock: snapshot.lock,
                votes: snapshot.votes,
                finalized: snapshot.finalized,
            },
        )
    }

    /// The state to persist before a newly signed vote is transmitted.
    pub fn snapshot(&self) -> (snapshot: ReplicaSnapshot)
        ensures
            snapshot@ == self.safety(),
    {
        ReplicaSnapshot {
            height: self.height,
            view: self.view,
            parent_id: self.parent_id,
            lock: self.lock,
            votes: self.votes.copy(),
            finalized: self.finalized.copy(),
        }
    }

    /// The identity of the replica.
    pub fn id(&self) -> (id: Hash256)
        ensures
            id == self.identity().id,
    {
        self.id
    }

    /// The stake table that the replica works with.
    pub fn validators(&self) -> (validators: &ValidatorSet)
        ensures
            validators@ == self.identity().table,
    {
        &self.validators
    }

    /// The scheme that the replica signs with.
    pub fn scheme(&self) -> (scheme: &Arc<S>)
        ensures
            *scheme == self.identity().scheme,
    {
        &self.scheme
    }

    /// The key that the replica signs with.
    pub(crate) fn private_key(&self) -> (key: &[u8])
        ensures
            key@ == self.identity().private_key,
    {
        &self.private_key
    }

    /// The block that the next one extends.
    pub fn parent_id(&self) -> (id: Hash256)
        ensures
            id == self.safety().parent_id,
    {
        self.parent_id
    }

    /// The height being decided.
    pub fn height(&self) -> (height: u64)
        ensures
            height == self.safety().height,
    {
        self.height
    }

    /// The view within the height.
    pub fn view(&self) -> (view: u64)
        ensures
            view == self.safety().view,
    {
        self.view
    }

    /// The leader of the current round.
    pub fn leader(&self) -> (leader: Hash256)
        ensures
            leader == leader_of(self.identity().table, self.safety().height, self.safety().view).id,
    {
        self.validators.leader(self.height, self.view).id
    }

    /// Whether the replica has voted in a phase of the current round, and for what.
    fn vote_cast(&self, phase: VotePhase) -> (block: Option<Hash256>)
        ensures
            block == (if self.safety().votes.contains_key(slot(self.safety(), phase)) {
                Some(self.safety().votes[slot(self.safety(), phase)])
            } else {
                None
            }),
    {
        match self.votes.get(&VoteSlot { height: self.height, view: self.view, phase }) {
            Some(block) => Some(*block),
            None => None,
        }
    }

    /// Validates leader, parent, block ID, and lock rule, then emits one order vote.
    ///
    /// # Errors
    ///
    /// Rejects stale/wrong-leader proposals, unsafe unlocks, or local equivocation.
    pub fn vote_for_proposal(&mut self, proposal: &Proposal) -> (result: Result<
        Vote,
        ConsensusError,
    >)
        ensures
            final(self).identity() == old(self).identity(),
            (final(self).safety(), vote_result(result)) == order_step(
                old(self).safety(),
                old(self).identity(),
                proposal@,
            ),
    {
        match self.validate_proposal(proposal) {
            Ok(()) => {},
            Err(error) => {
                return Err(error);
            },
        }
        self.sign_once(proposal.block_id, VotePhase::Order)
    }

    fn validate_proposal(&self, proposal: &Proposal) -> (result: Result<(), ConsensusError>)
        ensures
            match result {
                Ok(()) => proposal_refusal(self.safety(), self.identity(), proposal@) is None,
                Err(error) => proposal_refusal(self.safety(), self.identity(), proposal@) == Some(error),
            },
    {
        if proposal.height != self.height || proposal.view != self.view {
            return Err(ConsensusError::ProposalRoundMismatch);
        }
        if proposal.proposer != self.leader() {
            return Err(ConsensusError::WrongLeader);
        }
        if proposal.parent_id != self.parent_id || !proposal.has_valid_id() {
            return Err(ConsensusError::InvalidProposal);
        }
        if let Some(lock) = self.lock {
            if proposal.block_id != lock.block_id {
                match &proposal.justify {
                    None => {
                        return Err(ConsensusError::LockedOnDifferentBlock);
                    },
                    Some(justify) => {
                        match verify_certificate(justify, &self.validators, &*self.scheme) {
                            Ok(()) => {},
                            Err(error) => {
                                return Err(error);
                            },
                        }
                        if justify.kind != CertificateKind::Prepare || justify.height
                            != lock.height || justify.view <= lock.view || justify.block_id
                            != proposal.block_id {
                            return Err(ConsensusError::LockedOnDifferentBlock);
                        }
                    },
                }
            }
        }
        Ok(())
    }

    /// Locks a prepared block and emits the fallback round-two commit vote.
    ///
    /// # Errors
    ///
    /// Rejects invalid, stale, or conflicting prepare certificates.
    pub fn vote_to_commit(&mut self, prepare: &QuorumCertificate) -> (result: Result<
        Vote,
        ConsensusError,
    >)
        ensures
            final(self).identity() == old(self).identity(),
            (final(self).safety(), vote_result(result)) == commit_step(
                old(self).safety(),
                old(self).identity(),
                prepare@,
            ),
    {
        match verify_certificate(prepare, &self.validators, &*self.scheme) {
            Ok(()) => {},
            Err(error) => {
                return Err(error);
            },
        }
        if prepare.kind != CertificateKind::Prepare || prepare.height != self.height
            || prepare.view != self.view {
            return Err(ConsensusError::CertificateRoundMismatch);
        }
        if let Some(lock) = self.lock {
            if lock.height == prepare.height && lock.block_id != prepare.block_id && lock.view
                >= prepare.view {
                return Err(ConsensusError::LockedOnDifferentBlock);
            }
        }
        self.lock = Some(
            ReplicaLock {
                height: prepare.height,
                view: prepare.view,
                block_id: prepare.block_id,
            },
        );
        self.sign_once(prepare.block_id, VotePhase::Commit)
    }

    /// Emits a timeout vote from a local timer; no global clock is consulted.
    ///
    /// Order and timeout are the mutually exclusive first-round choices from
    /// the 20+20 protocol. A replica that already notarized a proposal cannot
    /// also help certify that the same view timed out. This is what prevents an
    /// 80% fast certificate from coexisting with the 60% certificate needed to
    /// abandon its view.
    ///
    /// # Errors
    ///
    /// Returns no vote when this replica already cast an order vote in the
    /// current view. Key failures and conflicting durable votes remain errors.
    pub fn local_timeout(&mut self) -> (result: Result<Option<Vote>, ConsensusError>)
        ensures
            final(self).identity() == old(self).identity(),
            (final(self).safety(), optional_vote_result(result)) == timeout_step(
                old(self).safety(),
                old(self).identity(),
            ),
    {
        if self.vote_cast(VotePhase::Order).is_some() {
            return Ok(None);
        }
        match self.sign_once(Hash256::default(), VotePhase::Timeout) {
            Ok(vote) => Ok(Some(vote)),
            Err(error) => Err(error),
        }
    }

    /// Advances one view after a 60% timeout certificate.
    ///
    /// # Errors
    ///
    /// Rejects invalid or stale timeout certificates.
    pub fn advance_view(&mut self, timeout: &QuorumCertificate) -> (result: Result<
        (),
        ConsensusError,
    >)
        ensures
            final(self).identity() == old(self).identity(),
            (final(self).safety(), result) == advance_step(old(self).safety(), old(self).identity(), timeout@),
    {
        match verify_certificate(timeout, &self.validators, &*self.scheme) {
            Ok(()) => {},
            Err(error) => {
                return Err(error);
            },
        }
        if timeout.kind != CertificateKind::Timeout || timeout.height != self.height
            || timeout.view != self.view {
            return Err(ConsensusError::CertificateRoundMismatch);
        }
        match self.view.checked_add(1) {
            Some(view) => {
                self.view = view;
                Ok(())
            },
            None => Err(ConsensusError::ViewOverflow),
        }
    }

    /// Finalizes an 80% fast certificate or a 60% second-round commit certificate.
    ///
    /// # Errors
    ///
    /// Any conflicting local finalization is a hard safety violation.
    pub fn finalize(&mut self, certificate: &QuorumCertificate) -> (result: Result<
        Hash256,
        ConsensusError,
    >)
        ensures
            final(self).identity() == old(self).identity(),
            (final(self).safety(), result) == finalize_step(
                old(self).safety(),
                old(self).identity(),
                certificate@,
            ),
    {
        match verify_certificate(certificate, &self.validators, &*self.scheme) {
            Ok(()) => {},
            Err(error) => {
                return Err(error);
            },
        }
        if let Some(existing) = self.finalized.get(&certificate.height) {
            if *existing != certificate.block_id {
                return Err(
                    ConsensusError::SafetyViolation {
                        height: certificate.height,
                        first: *existing,
                        second: certificate.block_id,
                    },
                );
            }
            return Ok(*existing);
        }
        if !(certificate.kind == CertificateKind::Fast || certificate.kind
            == CertificateKind::Commit) || certificate.height != self.height {
            return Err(ConsensusError::CertificateRoundMismatch);
        }
        let _ = self.finalized.insert(certificate.height, certificate.block_id);
        self.parent_id = certificate.block_id;
        match self.height.checked_add(1) {
            Some(height) => {
                self.height = height;
            },
            None => {
                return Err(ConsensusError::HeightOverflow);
            },
        }
        self.view = 0;
        self.lock = None;
        Ok(certificate.block_id)
    }

    /// Records a vote, then signs it.
    fn sign_once(&mut self, block_id: Hash256, phase: VotePhase) -> (result: Result<
        Vote,
        ConsensusError,
    >)
        ensures
            final(self).identity() == old(self).identity(),
            (final(self).safety(), vote_result(result)) == cast(
                old(self).safety(),
                old(self).identity(),
                block_id,
                phase,
            ),
    {
        let excluded = match phase {
            VotePhase::Order => self.vote_cast(VotePhase::Timeout).is_some(),
            VotePhase::Timeout => self.vote_cast(VotePhase::Order).is_some(),
            VotePhase::Commit => false,
        };
        if excluded {
            return Err(ConsensusError::ConflictingFirstRoundVote);
        }
        match self.vote_cast(phase) {
            Some(previous) => {
                if previous != block_id {
                    return Err(ConsensusError::LocalDoubleVote);
                }
                assert(with_cast(self.safety(), block_id, phase).votes =~= self.safety().votes);
            },
            None => {
                let _ = self.votes.insert(
                    VoteSlot { height: self.height, view: self.view, phase },
                    block_id,
                );
            },
        }
        Vote::sign(
            self.id,
            &self.private_key,
            self.height,
            self.view,
            block_id,
            phase,
            &*self.scheme,
        )
    }
}

/// Something that happens to a replica.
pub enum ReplicaEvent {
    Proposed(ProposalModel),
    Prepared(CertificateModel),
    TimerExpired,
    TimedOut(CertificateModel),
    Certified(CertificateModel),
}

/// The state after an event, and the vote that the replica emits.
pub open spec fn replica_step<S: AggregateSignatureScheme>(
    state: SafetyState,
    identity: ReplicaIdentity<S>,
    event: ReplicaEvent,
) -> (SafetyState, Option<VoteModel>) {
    match event {
        ReplicaEvent::Proposed(proposal) => {
            let (next, result) = order_step(state, identity, proposal);
            (next, result.ok())
        },
        ReplicaEvent::Prepared(prepare) => {
            let (next, result) = commit_step(state, identity, prepare);
            (next, result.ok())
        },
        ReplicaEvent::TimerExpired => {
            let (next, result) = timeout_step(state, identity);
            (
                next,
                match result {
                    Ok(vote) => vote,
                    Err(_) => None,
                },
            )
        },
        ReplicaEvent::TimedOut(timeout) => (advance_step(state, identity, timeout).0, None),
        ReplicaEvent::Certified(certificate) => (
            finalize_step(state, identity, certificate).0,
            None,
        ),
    }
}

/// No view has both an order and a timeout vote.
pub open spec fn first_round_exclusive(votes: Map<VoteSlot, Hash256>) -> bool {
    forall|height: u64, view: u64|
        !(#[trigger] votes.contains_key(VoteSlot { height, view, phase: VotePhase::Order })
            && votes.contains_key(VoteSlot { height, view, phase: VotePhase::Timeout }))
}

/// An honest replica never double votes: whatever happens, every vote once
/// recorded stays recorded for the same block, and every emitted vote is the
/// recorded one. So two votes emitted in one round and phase are for one block.
pub proof fn law_replica_never_double_votes<S: AggregateSignatureScheme>(
    state: SafetyState,
    identity: ReplicaIdentity<S>,
    event: ReplicaEvent,
)
    ensures
        ({
            let (next, vote) = replica_step(state, identity, event);
            &&& forall|key: VoteSlot| #[trigger]
                state.votes.contains_key(key) ==> next.votes.contains_key(key) && next.votes[key]
                    == state.votes[key]
            &&& vote matches Some(cast) ==> {
                let key = VoteSlot { height: cast.height, view: cast.view, phase: cast.phase };
                next.votes.contains_key(key) && next.votes[key] == cast.block_id
            }
        }),
{
}

/// An honest replica never casts both an order and a timeout vote in one view.
pub proof fn law_first_round_votes_stay_exclusive<S: AggregateSignatureScheme>(
    state: SafetyState,
    identity: ReplicaIdentity<S>,
    event: ReplicaEvent,
)
    requires
        first_round_exclusive(state.votes),
    ensures
        first_round_exclusive(replica_step(state, identity, event).0.votes),
{
    let next = replica_step(state, identity, event).0;
    assert forall|height: u64, view: u64|
        !(#[trigger] next.votes.contains_key(VoteSlot { height, view, phase: VotePhase::Order })
            && next.votes.contains_key(VoteSlot { height, view, phase: VotePhase::Timeout })) by {
        assert(!(state.votes.contains_key(VoteSlot { height, view, phase: VotePhase::Order })
            && state.votes.contains_key(VoteSlot { height, view, phase: VotePhase::Timeout })));
    }
}

/// The state a replica is in stays one that it can be restored from: the lock
/// belongs to the current height and no later view, and every finalized height
/// lies below the current one. The last height of all is left out: finalizing
/// it records the block and reports an overflow without moving on.
pub proof fn law_replica_state_stays_consistent<S: AggregateSignatureScheme>(
    state: SafetyState,
    identity: ReplicaIdentity<S>,
    event: ReplicaEvent,
)
    requires
        snapshot_consistent(state),
        state.height < u64::MAX,
    ensures
        snapshot_consistent(replica_step(state, identity, event).0),
{
}

/// A finalized block is never replaced, and a height is finalized only by the
/// certificate that the replica accepts for it.
pub proof fn law_finality_is_permanent<S: AggregateSignatureScheme>(
    state: SafetyState,
    identity: ReplicaIdentity<S>,
    event: ReplicaEvent,
)
    ensures
        forall|height: u64| #[trigger]
            state.finalized.contains_key(height) ==> replica_step(
                state,
                identity,
                event,
            ).0.finalized.contains_key(height) && replica_step(state, identity, event).0.finalized[height]
                == state.finalized[height],
{
}

/// A replica that is locked emits an order vote for another block only with a
/// later prepare certificate for that block.
pub proof fn law_lock_is_respected<S: AggregateSignatureScheme>(
    state: SafetyState,
    identity: ReplicaIdentity<S>,
    proposal: ProposalModel,
)
    requires
        order_step(state, identity, proposal).1 is Ok,
        state.lock is Some,
        proposal.block_id != state.lock.unwrap().block_id,
    ensures
        proposal.justify matches Some(justify) && unlocks(
            justify,
            state.lock.unwrap(),
            proposal.block_id,
        ) && certificate_check(justify, identity.table, identity.scheme) is Ok,
{
}

} // verus!
