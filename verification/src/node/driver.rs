//! The coordinator: a replica with its round, driven by ticks and messages.

use std::sync::Arc;

use vstd::prelude::*;

use crate::bytes::same_bytes;
use crate::consensus::certificates::{
    copy_ids, verify_certificate, CertificateKind, QuorumCertificate,
};
use crate::consensus::errors::ConsensusError;
use crate::consensus::proposals::{proposal_id, FinalizedOrder, Proposal, SignedProposal};
use crate::consensus::replica::{
    snapshot_consistent, Replica, ReplicaIdentity, ReplicaSnapshot, SafetyState,
};
use crate::consensus::validators::{member, ValidatorModel};
use crate::consensus::votes::{verify_vote, Vote, VotePhase};
use crate::consensus::ValidatorSet;
use crate::crypto::AggregateSignatureScheme;
use crate::node::coordinator::{
    advance_stage, alternating, answered, build_step, catchup_request, certificate_message,
    certificate_received, certificate_step, certified, certified_order_refusal, certify_stage,
    commit_order_step, equivocates, finish_step, handle_step, leads, made_up, make_certificate,
    may_propose, order_vote_step, orders_received, others, prepare_stage, prepare_step,
    proposal_received, propose_stage, replayable, replayed, resend_commit_stage, resend_due,
    resend_order_stage, round_timeout_for_view, sent_vote, skip_safe_vote_refusal, tick_step,
    timeout_stage, valid_configuration, view_change_step, vote_received, vote_stage,
    CertificateEmission, ContextModel, CoordinatorConfig, CoordinatorError, CoordinatorFaults,
    FaultModel, Flow, ProposalTransactionSource, SourceReply, TurnModel,
    CATCHUP_REQUEST_INTERVAL_MS, EMPTY_MEMPOOL_PROPAGATION_MARGIN_MS,
};
use crate::node::round::{
    effects_of, elapsed, orders_of, perform, proposals_of, record_first_vote, record_vote,
    CoordinatorOutcome, Effect, EffectModel, Envelope, RoundState, WireMessage,
};
use crate::ordered::{sorted_keys, OrderedSet};
use crate::types::Hash256;

verus! {

/// A validator that drives consensus rounds. Sockets, timers and storage are
/// outside: they report ticks and messages and perform the effects that come back.
pub struct ConsensusCoordinator<S: AggregateSignatureScheme> {
    replica: Replica<S>,
    peers: OrderedSet<Hash256>,
    config: CoordinatorConfig,
    faults: CoordinatorFaults,
    /// When this validator last asked a peer to replay missing orders, used to
    /// throttle catch-up requests.
    last_catchup_request: Option<u64>,
}

/// The values that a turn works on.
pub open spec fn turn_of<S: AggregateSignatureScheme>(
    coordinator: ConsensusCoordinator<S>,
    round: RoundState,
    effects: Seq<Effect>,
) -> TurnModel {
    TurnModel {
        safety: coordinator.safety(),
        requested_at: coordinator.requested_at(),
        round: round@,
        effects: effects_of(effects),
    }
}

/// Why a validator may not start: its configuration, its identity or its key.
pub open spec fn start_refusal<S: AggregateSignatureScheme>(
    config: CoordinatorConfig,
    faults: FaultModel,
    identity: ReplicaIdentity<S>,
) -> Option<CoordinatorError> {
    if !valid_configuration(config, faults) {
        Some(CoordinatorError::InvalidConfiguration)
    } else {
        match member(identity.table, identity.id) {
            None => Some(CoordinatorError::UnknownLocalValidator),
            Some(validator) => match identity.scheme.derived_key(identity.private_key) {
                Err(error) => Some(CoordinatorError::Crypto(error)),
                Ok(key) => if key != validator.public_key {
                    Some(CoordinatorError::PrivateKeyMismatch)
                } else {
                    None
                },
            },
        }
    }
}

/// Flips the first bit of a vote's signature, where the validator is made to
/// corrupt its votes.
fn prepare_vote(corrupt: bool, vote: Vote) -> (sent: Vote)
    ensures
        sent@ == sent_vote(corrupt, vote@),
{
    let mut sent = vote;
    if corrupt && sent.signature.len() > 0 {
        let first: u8 = sent.signature[0];
        sent.signature.set(0, first ^ 1u8);
    }
    sent
}

impl<S: AggregateSignatureScheme> ConsensusCoordinator<S> {
    /// What does not change while the coordinator runs.
    pub closed spec fn context(&self) -> ContextModel<S> {
        ContextModel {
            identity: self.replica.identity(),
            peers: self.peers@,
            config: self.config,
            faults: self.faults@,
        }
    }

    /// The safety state of the replica.
    pub closed spec fn safety(&self) -> SafetyState {
        self.replica.safety()
    }

    /// When missing orders were last asked for.
    pub closed spec fn requested_at(&self) -> Option<u64> {
        self.last_catchup_request
    }

    /// Checks the configuration and the local identity and key.
    ///
    /// # Errors
    ///
    /// Rejects unusable timings and faults, an unknown validator and a key that is
    /// not the validator's.
    pub fn check_start(
        config: &CoordinatorConfig,
        faults: &CoordinatorFaults,
        id: Hash256,
        private_key: &[u8],
        validators: &ValidatorSet,
        scheme: &S,
    ) -> (result: Result<(), CoordinatorError>)
        ensures
            ({
                let identity = ReplicaIdentity {
                    id,
                    private_key: private_key@,
                    table: validators@,
                    scheme: *scheme,
                };
                match result {
                    Ok(()) => start_refusal(*config, faults@, identity) is None,
                    Err(error) => start_refusal(*config, faults@, identity) == Some(error),
                }
            }),
    {
        if config.fast_path_wait_ms == 0 || config.round_timeout_ms <= config.fast_path_wait_ms
            || config.proposal_rebroadcast_ms == 0 || config.proposal_vote_delay_ms == 0
            || config.proposal_vote_delay_ms >= config.fast_path_wait_ms
            || config.maximum_message_bytes == 0 || faults.drop_basis_points > 10_000 {
            return Err(CoordinatorError::InvalidConfiguration);
        }
        match validators.validator(id) {
            None => Err(CoordinatorError::UnknownLocalValidator),
            Some(validator) => match scheme.public_key(private_key) {
                Err(error) => Err(CoordinatorError::Crypto(error)),
                Ok(key) => if same_bytes(&key, &validator.public_key) {
                    Ok(())
                } else {
                    Err(CoordinatorError::PrivateKeyMismatch)
                },
            },
        }
    }

    /// Validates the configuration and restores durable safety state when present;
    /// without it the validator starts at height one on the genesis block.
    ///
    /// # Errors
    ///
    /// Rejects what the start check rejects and inconsistent durable state.
    pub fn bind(
        config: CoordinatorConfig,
        faults: CoordinatorFaults,
        id: Hash256,
        private_key: Vec<u8>,
        validators: ValidatorSet,
        scheme: Arc<S>,
        genesis_hash: Hash256,
        snapshot: Option<ReplicaSnapshot>,
    ) -> (result: Result<Self, CoordinatorError>)
        ensures
            ({
                let identity = ReplicaIdentity {
                    id,
                    private_key: private_key@,
                    table: validators@,
                    scheme: *scheme,
                };
                match result {
                    Ok(coordinator) => {
                        &&& start_refusal(config, faults@, identity) is None
                        &&& coordinator.context() == (ContextModel {
                            identity,
                            peers: ids_of(validators@).to_set(),
                            config,
                            faults: faults@,
                        })
                        &&& coordinator.requested_at() is None
                        &&& match snapshot {
                            Some(snapshot) => snapshot_consistent(snapshot@)
                                && coordinator.safety() == snapshot@,
                            None => coordinator.safety() == (SafetyState {
                                height: 1,
                                view: 0,
                                parent_id: genesis_hash,
                                lock: None,
                                votes: Map::empty(),
                                finalized: Map::empty(),
                            }),
                        }
                    },
                    Err(error) => match start_refusal(config, faults@, identity) {
                        Some(refused) => error == refused,
                        None => snapshot matches Some(snapshot) && !snapshot_consistent(snapshot@)
                            && error == CoordinatorError::Consensus(
                            ConsensusError::InvalidReplicaSnapshot,
                        ),
                    },
                }
            }),
    {
        match Self::check_start(&config, &faults, id, &private_key, &validators, &*scheme) {
            Ok(()) => {},
            Err(error) => {
                return Err(error);
            },
        }
        let ids = validator_ids(&validators);
        let peers = OrderedSet::from_keys(&ids);
        let made = match snapshot {
            Some(snapshot) => Replica::restore(id, private_key, validators, scheme, snapshot),
            None => Replica::new(id, private_key, validators, scheme, 1, genesis_hash),
        };
        match made {
            Ok(replica) => Ok(
                ConsensusCoordinator { replica, peers, config, faults, last_catchup_request: None },
            ),
            Err(error) => Err(CoordinatorError::Consensus(error)),
        }
    }

    /// The height being decided.
    pub fn height(&self) -> (height: u64)
        ensures
            height == self.safety().height,
    {
        self.replica.height()
    }

    /// The view within the height.
    pub fn current_view(&self) -> (view: u64)
        ensures
            view == self.safety().view,
    {
        self.replica.view()
    }

    /// The outcome to report before anything was finalized in this run.
    pub fn initial_outcome(&self) -> (outcome: CoordinatorOutcome)
        ensures
            outcome == (CoordinatorOutcome {
                finalized_height: if self.safety().height > 0 {
                    (self.safety().height - 1) as u64
                } else {
                    0
                },
                finalized_block: self.safety().parent_id,
                finality_latency_ms: 0,
                view_changes: 0,
            }),
    {
        CoordinatorOutcome {
            finalized_height: self.replica.height().saturating_sub(1),
            finalized_block: self.replica.parent_id(),
            finality_latency_ms: 0,
            view_changes: 0,
        }
    }

    /// Whether the height bound of the run is reached.
    pub fn is_done(&self) -> (done: bool)
        ensures
            done == (self.context().config.stop_after_height matches Some(height)
                && self.safety().height > height),
    {
        match self.config.stop_after_height {
            Some(height) => self.replica.height() > height,
            None => false,
        }
    }

    /// The validators that a broadcast goes to: all others, in order.
    pub fn recipients(&self) -> (recipients: Vec<Hash256>)
        ensures
            recipients@ == others(sorted_keys(self.context().peers), self.context().identity.id),
    {
        let keys = self.peers.keys();
        let id = self.replica.id();
        let mut recipients: Vec<Hash256> = Vec::new();
        let mut index: usize = 0;
        while index < keys.len()
            invariant
                index <= keys@.len(),
                recipients@ == others(keys@.take(index as int), id),
            decreases keys@.len() - index,
        {
            proof {
                let next = keys@.take(index + 1);
                assert(next.drop_last() =~= keys@.take(index as int));
                assert(next.last() == keys@[index as int]);
            }
            if keys[index] != id {
                recipients.push(keys[index]);
            }
            index += 1;
        }
        assert(keys@.take(index as int) =~= keys@);
        recipients
    }

    /// Whether a message to a peer, or from one, passes the injected faults and
    /// the peer is a validator. A message from a blocked peer is ignored.
    pub fn allows(&self, peer: Hash256, encoded: Option<&Vec<u8>>) -> (allowed: bool)
        ensures
            allowed == (self.context().peers.contains(peer)
                && !self.context().faults.blocked_peers.contains(peer)
                && !crate::node::wire::is_lost(
                self.context().faults.drop_basis_points,
                self.context().identity.id,
                peer,
                match encoded {
                    Some(bytes) => Some(bytes@),
                    None => None,
                },
            )),
    {
        self.peers.contains(&peer) && !self.faults.blocked_peers.contains(&peer)
            && !crate::node::wire::should_drop(
            self.faults.drop_basis_points,
            self.replica.id(),
            peer,
            encoded,
        )
    }

    /// Whether messages of a sender are ignored.
    pub fn ignores(&self, sender: Hash256) -> (ignored: bool)
        ensures
            ignored == self.context().faults.blocked_peers.contains(sender),
    {
        self.faults.blocked_peers.contains(&sender)
    }

    /// Asks for the safety state to be stored.
    fn persist(&self, effects: &mut Vec<Effect>)
        ensures
            effects_of(final(effects)@) == effects_of(old(effects)@).push(
                EffectModel::Persist { state: self.safety() },
            ),
    {
        perform(effects, Effect::Persist { snapshot: self.replica.snapshot() });
    }

    fn cast_order_vote(
        &mut self,
        round: &mut RoundState,
        proposal: &Proposal,
        corrupt: bool,
        effects: &mut Vec<Effect>,
    )
        ensures
            final(self).context() == old(self).context(),
            turn_of(*final(self), *final(round), final(effects)@) == order_vote_step(
                old(self).context(),
                turn_of(*old(self), *old(round), old(effects)@),
                proposal@,
                corrupt,
            ),
    {
        if let Some(signed) = skip_safe_vote_refusal(self.replica.vote_for_proposal(proposal)) {
            self.persist(effects);
            let vote = prepare_vote(corrupt, signed);
            record_vote(&mut round.order_votes, vote.clone());
            round.proposal_vote = Some(vote);
        }
    }
}

impl<S: AggregateSignatureScheme> ConsensusCoordinator<S> {
    /// Whether the validator leads the round that it is in.
    fn is_leader(&self) -> (leader: bool)
        ensures
            leader == leads(self.context(), self.safety()),
    {
        self.replica.id() == self.replica.leader()
    }

    /// Signs a proposal of one made-up transaction.
    fn make_up(&self, text: &str) -> (result: Result<SignedProposal, ConsensusError>)
        ensures
            crate::consensus::proposals::proposal_result(result) == made_up(
                self.context(),
                self.safety(),
                text,
            ),
    {
        let mut bytes: Vec<u8> = Vec::new();
        crate::bytes::append_text(&mut bytes, text);
        assert(bytes@ =~= crate::bytes::text_bytes(text));
        let mut ids: Vec<Hash256> = Vec::new();
        ids.push(Hash256::digest(&bytes));
        assert(ids@ =~= seq![crate::types::hash_of(crate::bytes::text_bytes(text))]);
        let proposal = Proposal::new(
            self.replica.height(),
            self.replica.view(),
            self.replica.parent_id(),
            self.replica.id(),
            ids,
            Hash256::default(),
            None,
        );
        SignedProposal::sign(proposal, self.replica.private_key(), &**self.replica.scheme())
    }

    /// Sends the first proposal to every other recipient and the second one to
    /// the rest.
    fn send_alternating(&self, first: &SignedProposal, second: &SignedProposal, effects: &mut Vec<Effect>)
        ensures
            effects_of(final(effects)@) == effects_of(old(effects)@) + alternating(
                others(sorted_keys(self.context().peers), self.context().identity.id),
                first@,
                second@,
            ),
    {
        let recipients = self.recipients();
        let ghost sent = alternating(recipients@, first@, second@);
        let ghost before = effects_of(effects@);
        let mut index: usize = 0;
        assert(effects_of(effects@) =~= before + sent.take(0));
        while index < recipients.len()
            invariant
                index <= recipients@.len(),
                sent == alternating(recipients@, first@, second@),
                effects_of(effects@) == before + sent.take(index as int),
            decreases recipients@.len() - index,
        {
            let signed = if index % 2 == 0 {
                first.clone()
            } else {
                second.clone()
            };
            let message = WireMessage::Proposal(signed);
            perform(effects, Effect::Send { peer: recipients[index], message });
            proof {
                assert(effects_of(effects@) =~= before + sent.take(index + 1));
            }
            index += 1;
        }
        assert(sent.take(index as int) =~= sent);
    }

    /// A leader without a proposal makes one from what its source offers.
    fn build(
        &mut self,
        round: &mut RoundState,
        now: u64,
        reply: SourceReply,
        effects: &mut Vec<Effect>,
    ) -> (flow: Flow)
        ensures
            final(self).context() == old(self).context(),
            (turn_of(*final(self), *final(round), final(effects)@), flow) == build_step(
                old(self).context(),
                turn_of(*old(self), *old(round), old(effects)@),
                now,
                reply@,
            ),
    {
        if round.should_defer_empty_proposal(
            EMPTY_MEMPOOL_PROPAGATION_MARGIN_MS,
            reply.is_empty,
            now,
        ) {
            return Flow::Continue;
        }
        match reply.order {
            // A recovering pipeline can temporarily refuse to build a height until
            // the one before is retired locally. The round keeps ticking, so that
            // it can time out and another leader can take over.
            None => Flow::Continue,
            Some(order) => {
                let proposal = Proposal::new(
                    self.replica.height(),
                    self.replica.view(),
                    self.replica.parent_id(),
                    self.replica.id(),
                    order.transaction_ids,
                    order.fee_commitment,
                    None,
                );
                match SignedProposal::sign(
                    proposal.clone(),
                    self.replica.private_key(),
                    &**self.replica.scheme(),
                ) {
                    Err(error) => Flow::Fail(CoordinatorError::Consensus(error)),
                    Ok(signed) => {
                        round.proposal = Some(signed);
                        if !self.faults.withhold_votes {
                            self.cast_order_vote(round, &proposal, false, effects);
                        }
                        Flow::Continue
                    },
                }
            },
        }
    }

    /// The leader proposes, repeats its proposal, or equivocates where made to.
    fn propose(
        &mut self,
        round: &mut RoundState,
        now: u64,
        reply: SourceReply,
        effects: &mut Vec<Effect>,
    ) -> (flow: Flow)
        ensures
            final(self).context() == old(self).context(),
            (turn_of(*final(self), *final(round), final(effects)@), flow) == propose_stage(
                old(self).context(),
                turn_of(*old(self), *old(round), old(effects)@),
                now,
                reply@,
            ),
    {
        if self.should_equivocate(round, now) {
            match self.make_up("equivocation-a") {
                Err(error) => Flow::Fail(CoordinatorError::Consensus(error)),
                Ok(first) => match self.make_up("equivocation-b") {
                    Err(error) => Flow::Fail(CoordinatorError::Consensus(error)),
                    Ok(second) => {
                        self.send_alternating(&first, &second, effects);
                        round.flags.equivocation_sent = true;
                        Flow::Continue
                    },
                },
            }
        } else if self.should_propose(round, now) {
            if round.proposal.is_none() {
                match self.build(round, now, reply, effects) {
                    Flow::Fail(error) => {
                        return Flow::Fail(error);
                    },
                    _ => {},
                }
            }
            if let Some(signed) = &round.proposal {
                let message = WireMessage::Proposal(signed.clone());
                perform(effects, Effect::Broadcast { message });
                round.last_proposal_broadcast = now;
            }
            Flow::Continue
        } else {
            Flow::Continue
        }
    }

    fn should_equivocate(&self, round: &RoundState, now: u64) -> (due: bool)
        ensures
            due == equivocates(self.context(), self.safety(), round@, now),
    {
        self.is_leader() && round.proposal_delay_elapsed(self.faults.proposal_delay_ms, now)
            && self.faults.equivocate_when_leader && !round.flags.equivocation_sent
    }

    /// Whether the validator proposes now, or repeats its proposal.
    pub fn should_propose(&self, round: &RoundState, now: u64) -> (due: bool)
        ensures
            due == may_propose(self.context(), self.safety(), round@, now),
    {
        self.is_leader() && round.proposal_delay_elapsed(self.faults.proposal_delay_ms, now)
            && !self.faults.equivocate_when_leader && (round.proposal.is_none() || elapsed(
            now,
            round.last_proposal_broadcast,
        ) >= self.config.proposal_rebroadcast_ms)
    }

    /// A validator that does not lead votes once for the proposal it has observed.
    fn vote(&mut self, round: &mut RoundState, now: u64, effects: &mut Vec<Effect>)
        ensures
            final(self).context() == old(self).context(),
            turn_of(*final(self), *final(round), final(effects)@) == vote_stage(
                old(self).context(),
                turn_of(*old(self), *old(round), old(effects)@),
                now,
            ),
    {
        let waited = match round.first_proposal_at {
            Some(received) => elapsed(now, received) >= self.config.proposal_vote_delay_ms,
            None => false,
        };
        if self.is_leader() || self.faults.withhold_votes || round.flags.equivocation_detected
            || !waited || round.flags.proposal_vote_sent {
            return;
        }
        let proposal = match round.first_observed() {
            Some(signed) => signed.proposal.clone(),
            None => {
                return;
            },
        };
        // Marked either way: a view this replica has already timed out will never
        // produce an order vote, so retrying on every tick would only spin.
        round.flags.proposal_vote_sent = true;
        self.cast_order_vote(round, &proposal, self.faults.corrupt_votes, effects);
    }

    fn is_resend_due(sent_at: Option<u64>, interval: u64, now: u64) -> (due: bool)
        ensures
            due == resend_due(sent_at, interval, now),
    {
        match sent_at {
            None => true,
            Some(sent) => elapsed(now, sent) >= interval,
        }
    }

    fn resend_order(&self, round: &mut RoundState, now: u64, effects: &mut Vec<Effect>)
        ensures
            turn_of(*self, *final(round), final(effects)@) == resend_order_stage(
                self.context(),
                turn_of(*self, *old(round), old(effects)@),
                now,
            ),
    {
        if let Some(vote) = &round.proposal_vote {
            if Self::is_resend_due(
                round.last_proposal_vote_sent,
                self.config.proposal_rebroadcast_ms,
                now,
            ) {
                perform(effects, Effect::Broadcast { message: WireMessage::Vote(vote.clone()) });
                round.last_proposal_vote_sent = Some(now);
            }
        }
    }

    fn resend_commit(&self, round: &mut RoundState, now: u64, effects: &mut Vec<Effect>)
        ensures
            turn_of(*self, *final(round), final(effects)@) == resend_commit_stage(
                self.context(),
                turn_of(*self, *old(round), old(effects)@),
                now,
            ),
    {
        if let Some(vote) = &round.commit_vote {
            if Self::is_resend_due(
                round.last_commit_vote_sent,
                self.config.proposal_rebroadcast_ms,
                now,
            ) {
                perform(effects, Effect::Broadcast { message: WireMessage::Vote(vote.clone()) });
                round.last_commit_vote_sent = Some(now);
            }
        }
    }

    /// Finalizes one certified order at the replica's current height: advances the
    /// replica and asks for its safety state to be stored, the outcome to be
    /// reported, the order to be retained for catch-up and handed to execution.
    /// Shared by the live path and catch-up replay.
    fn commit_finalized_order(
        &mut self,
        order: FinalizedOrder,
        latency_ms: u64,
        effects: &mut Vec<Effect>,
    ) -> (result: Result<CoordinatorOutcome, CoordinatorError>)
        ensures
            final(self).context() == old(self).context(),
            final(self).requested_at() == old(self).requested_at(),
            forall|round: RoundState|
                (#[trigger] turn_of(*final(self), round, final(effects)@), result)
                    == commit_order_step(
                    old(self).context(),
                    turn_of(*old(self), round, old(effects)@),
                    order@,
                    latency_ms,
                ),
    {
        let finalized_block = match self.replica.finalize(&order.certificate) {
            Ok(block) => block,
            Err(error) => {
                return Err(CoordinatorError::Consensus(error));
            },
        };
        self.persist(effects);
        let outcome = CoordinatorOutcome {
            finalized_height: order.height,
            finalized_block,
            finality_latency_ms: latency_ms,
            view_changes: order.certificate.view,
        };
        perform(effects, Effect::Finalize { order, outcome });
        Ok(outcome)
    }

    /// Applies a final certificate of the current height and starts the next one.
    fn apply_certificate(
        &mut self,
        certificate: QuorumCertificate,
        transaction_ids: Vec<Hash256>,
        fee_commitment: Hash256,
        round: &mut RoundState,
        now: u64,
        effects: &mut Vec<Effect>,
    ) -> (flow: Flow)
        ensures
            final(self).context() == old(self).context(),
            (turn_of(*final(self), *final(round), final(effects)@), flow) == certificate_step(
                old(self).context(),
                turn_of(*old(self), *old(round), old(effects)@),
                certificate@,
                transaction_ids@,
                fee_commitment,
                now,
            ),
    {
        if certificate.height != self.replica.height() {
            return Flow::Finish(None);
        }
        let latency: u64 = elapsed(now, round.height_started);
        let order = FinalizedOrder {
            height: certificate.height,
            block_id: certificate.block_id,
            transaction_ids,
            fee_commitment,
            certificate,
        };
        let ghost entry = turn_of(*self, *round, effects@);
        let committed = self.commit_finalized_order(order, latency, effects);
        assert(turn_of(*self, *round, effects@).round == entry.round);
        match committed {
            Err(error) => Flow::Fail(error),
            Ok(outcome) => {
                *round = RoundState::new_height(now);
                Flow::Finish(Some(outcome))
            },
        }
    }

    /// Casts the commit vote that a prepare certificate of the current round asks
    /// for, once. A refusal to cast it is safe to skip, never fatal.
    fn apply_prepare(
        &mut self,
        certificate: &QuorumCertificate,
        round: &mut RoundState,
        now: u64,
        effects: &mut Vec<Effect>,
    )
        ensures
            final(self).context() == old(self).context(),
            turn_of(*final(self), *final(round), final(effects)@) == prepare_step(
                old(self).context(),
                turn_of(*old(self), *old(round), old(effects)@),
                certificate@,
                now,
            ),
    {
        if certificate.height != self.replica.height() || certificate.view != self.replica.view()
            || self.faults.withhold_votes || round.commit_vote.is_some() {
            return;
        }
        if let Some(signed) = skip_safe_vote_refusal(self.replica.vote_to_commit(certificate)) {
            self.persist(effects);
            let vote = prepare_vote(self.faults.corrupt_votes, signed);
            record_vote(&mut round.commit_votes, vote.clone());
            perform(effects, Effect::Broadcast { message: WireMessage::Vote(vote.clone()) });
            round.commit_vote = Some(vote);
            round.last_commit_vote_sent = Some(now);
        }
    }
}

impl<S: AggregateSignatureScheme> ConsensusCoordinator<S> {
    /// Forms a certificate of the current round from votes, if they suffice.
    fn certificate_from(
        &self,
        kind: CertificateKind,
        block_id: Hash256,
        votes: &crate::ordered::OrderedMap<Hash256, Vote>,
    ) -> (certificate: Option<QuorumCertificate>)
        ensures
            match certificate {
                Some(certificate) => Some(certificate@),
                None => None,
            } == certified(
                self.context(),
                kind,
                self.safety().height,
                self.safety().view,
                block_id,
                crate::node::round::votes_of(votes@),
            ),
    {
        make_certificate(
            self.replica.validators(),
            self.replica.scheme(),
            kind,
            self.replica.height(),
            self.replica.view(),
            block_id,
            votes,
        )
    }

    /// Sends a final certificate and applies it.
    fn finish(
        &mut self,
        certificate: QuorumCertificate,
        proposal: &Proposal,
        round: &mut RoundState,
        now: u64,
        effects: &mut Vec<Effect>,
    ) -> (flow: Flow)
        ensures
            final(self).context() == old(self).context(),
            (turn_of(*final(self), *final(round), final(effects)@), flow) == finish_step(
                old(self).context(),
                turn_of(*old(self), *old(round), old(effects)@),
                certificate@,
                proposal@,
                now,
            ),
    {
        self.announce(&certificate, proposal, effects);
        let transaction_ids = copy_ids(&proposal.transaction_ids);
        self.apply_certificate(
            certificate,
            transaction_ids,
            proposal.fee_commitment,
            round,
            now,
            effects,
        )
    }

    /// Sends a certificate with the order it certifies.
    fn announce(&self, certificate: &QuorumCertificate, proposal: &Proposal, effects: &mut Vec<Effect>)
        ensures
            effects_of(final(effects)@) == effects_of(old(effects)@).push(
                certificate_message(certificate@, proposal@),
            ),
    {
        let message = WireMessage::Certificate {
            certificate: certificate.clone(),
            transaction_ids: Some(copy_ids(&proposal.transaction_ids)),
            fee_commitment: Some(proposal.fee_commitment),
        };
        perform(effects, Effect::Broadcast { message });
    }

    /// After the wait for the fast path, sends the prepare certificate that can be
    /// formed and votes to commit.
    fn prepare(
        &mut self,
        proposal: &Proposal,
        round: &mut RoundState,
        now: u64,
        effects: &mut Vec<Effect>,
    )
        ensures
            final(self).context() == old(self).context(),
            turn_of(*final(self), *final(round), final(effects)@) == prepare_stage(
                old(self).context(),
                turn_of(*old(self), *old(round), old(effects)@),
                proposal@,
                now,
            ),
    {
        if round.flags.prepare_sent || elapsed(now, round.started) < self.config.fast_path_wait_ms {
            return;
        }
        if let Some(certificate) = self.certificate_from(
            CertificateKind::Prepare,
            proposal.block_id,
            &round.order_votes,
        ) {
            round.flags.prepare_sent = true;
            self.announce(&certificate, proposal, effects);
            self.apply_prepare(&certificate, round, now, effects);
        }
    }

    /// Forms the certificates that the gathered votes allow.
    fn certify(&mut self, round: &mut RoundState, now: u64, effects: &mut Vec<Effect>) -> (flow: Flow)
        ensures
            final(self).context() == old(self).context(),
            (turn_of(*final(self), *final(round), final(effects)@), flow) == certify_stage(
                old(self).context(),
                turn_of(*old(self), *old(round), old(effects)@),
                now,
            ),
    {
        if self.faults.certificate_emission != CertificateEmission::Enabled {
            return Flow::Continue;
        }
        let proposal = match round.proposal_for_certification() {
            Some(signed) => signed.proposal.clone(),
            None => {
                return Flow::Continue;
            },
        };
        if let Some(certificate) = self.certificate_from(
            CertificateKind::Fast,
            proposal.block_id,
            &round.order_votes,
        ) {
            return self.finish(certificate, &proposal, round, now, effects);
        }
        let ghost before = self.safety();
        self.prepare(&proposal, round, now, effects);
        assert(self.safety().height == before.height && self.safety().view == before.view);
        if let Some(certificate) = self.certificate_from(
            CertificateKind::Commit,
            proposal.block_id,
            &round.commit_votes,
        ) {
            return self.finish(certificate, &proposal, round, now, effects);
        }
        Flow::Continue
    }

    /// A round that has taken too long asks for a timeout vote, once. The vote
    /// goes to everyone, so that view recovery does not depend on the designated
    /// next leader already being caught up to this height.
    fn time_out(&mut self, round: &mut RoundState, now: u64, effects: &mut Vec<Effect>) -> (flow: Flow)
        ensures
            final(self).context() == old(self).context(),
            (turn_of(*final(self), *final(round), final(effects)@), flow) == timeout_stage(
                old(self).context(),
                turn_of(*old(self), *old(round), old(effects)@),
                now,
            ),
    {
        let passed: u64 = elapsed(now, round.started);
        let limit: u128 = round_timeout_for_view(self.config.round_timeout_ms, self.replica.view());
        if (passed as u128) < limit || round.flags.timeout_sent {
            return Flow::Continue;
        }
        round.flags.timeout_sent = true;
        match self.replica.local_timeout() {
            Err(error) => Flow::Fail(CoordinatorError::Consensus(error)),
            Ok(None) => Flow::Continue,
            Ok(Some(vote)) => {
                self.persist(effects);
                record_vote(&mut round.timeout_votes, vote.clone());
                perform(effects, Effect::Broadcast { message: WireMessage::Vote(vote) });
                Flow::Continue
            },
        }
    }

    /// Applies a timeout certificate and starts the next view.
    fn change_view(
        &mut self,
        certificate: &QuorumCertificate,
        round: &mut RoundState,
        now: u64,
        effects: &mut Vec<Effect>,
    ) -> (flow: Flow)
        ensures
            final(self).context() == old(self).context(),
            (turn_of(*final(self), *final(round), final(effects)@), flow) == view_change_step(
                old(self).context(),
                turn_of(*old(self), *old(round), old(effects)@),
                certificate@,
                now,
            ),
    {
        match self.replica.advance_view(certificate) {
            Err(error) => Flow::Fail(CoordinatorError::Consensus(error)),
            Ok(()) => {
                self.persist(effects);
                *round = RoundState::new(now);
                Flow::Continue
            },
        }
    }

    /// A timeout certificate that the gathered votes allow starts the next view.
    fn advance(&mut self, round: &mut RoundState, now: u64, effects: &mut Vec<Effect>) -> (flow: Flow)
        ensures
            final(self).context() == old(self).context(),
            (turn_of(*final(self), *final(round), final(effects)@), flow) == advance_stage(
                old(self).context(),
                turn_of(*old(self), *old(round), old(effects)@),
                now,
            ),
    {
        match self.certificate_from(
            CertificateKind::Timeout,
            Hash256::default(),
            &round.timeout_votes,
        ) {
            None => Flow::Continue,
            Some(certificate) => {
                let message = WireMessage::Certificate {
                    certificate: certificate.clone(),
                    transaction_ids: None,
                    fee_commitment: None,
                };
                perform(effects, Effect::Broadcast { message });
                self.change_view(&certificate, round, now, effects)
            },
        }
    }

    /// What a tick of the clock does, given what the proposal source answered.
    ///
    /// Proposal delay and readiness may suppress proposal creation, but never the
    /// pacemaker at the end: a view that cannot get a proposal must still time out.
    pub fn tick(
        &mut self,
        round: &mut RoundState,
        now: u64,
        reply: SourceReply,
        effects: &mut Vec<Effect>,
    ) -> (flow: Flow)
        ensures
            final(self).context() == old(self).context(),
            (turn_of(*final(self), *final(round), final(effects)@), flow) == tick_step(
                old(self).context(),
                turn_of(*old(self), *old(round), old(effects)@),
                now,
                reply@,
            ),
    {
        match self.propose(round, now, reply, effects) {
            Flow::Fail(error) => {
                return Flow::Fail(error);
            },
            _ => {},
        }
        self.vote(round, now, effects);
        self.resend_order(round, now, effects);
        match self.certify(round, now, effects) {
            Flow::Continue => {},
            ended => {
                return ended;
            },
        }
        self.resend_commit(round, now, effects);
        match self.time_out(round, now, effects) {
            Flow::Fail(error) => {
                return Flow::Fail(error);
            },
            _ => {},
        }
        self.advance(round, now, effects)
    }

    /// Asks the proposal source for an order, where the validator is about to
    /// make a proposal and does not hold it back.
    fn ask<P: ProposalTransactionSource>(&self, round: &RoundState, now: u64, source: &P) -> (reply:
        SourceReply)
        ensures
            answered(self.context(), self.safety(), round@, now, source, reply),
    {
        if !self.should_propose(round, now) || round.proposal.is_some() {
            return SourceReply { is_empty: false, order: None };
        }
        let is_empty = source.is_empty();
        let order = if round.should_defer_empty_proposal(
            EMPTY_MEMPOOL_PROPAGATION_MARGIN_MS,
            is_empty,
            now,
        ) {
            None
        } else {
            source.transaction_ids(self.replica.height(), self.replica.parent_id())
        };
        SourceReply { is_empty, order }
    }

    /// What a tick of the clock does. The source is asked only for a proposal that
    /// the validator is about to make.
    ///
    /// # Errors
    ///
    /// Returns key failures and invariant breaks, which are fatal.
    pub fn on_tick<P: ProposalTransactionSource>(
        &mut self,
        round: &mut RoundState,
        now: u64,
        source: &P,
        effects: &mut Vec<Effect>,
    ) -> (result: Result<Option<CoordinatorOutcome>, CoordinatorError>)
        ensures
            final(self).context() == old(self).context(),
            exists|reply: SourceReply, flow: Flow| #[trigger]
                answered(
                    old(self).context(),
                    old(self).safety(),
                    old(round)@,
                    now,
                    source,
                    reply,
                ) && (turn_of(*final(self), *final(round), final(effects)@), flow) == tick_step(
                    old(self).context(),
                    turn_of(*old(self), *old(round), old(effects)@),
                    now,
                    reply@,
                ) && result == #[trigger] flow_result(flow),
    {
        let reply = self.ask(round, now, source);
        let flow = self.tick(round, now, reply, effects);
        let ghost ended = flow;
        let result = match flow {
            Flow::Continue => Ok(None),
            Flow::Finish(outcome) => Ok(outcome),
            Flow::Fail(error) => Err(error),
        };
        assert(result == flow_result(ended));
        result
    }
}

impl<S: AggregateSignatureScheme> ConsensusCoordinator<S> {
    fn receive_proposal(
        &self,
        sender: Hash256,
        signed: SignedProposal,
        round: &mut RoundState,
        now: u64,
        effects: &mut Vec<Effect>,
    ) -> (flow: Flow)
        ensures
            (turn_of(*self, *final(round), final(effects)@), flow) == proposal_received(
                self.context(),
                turn_of(*self, *old(round), old(effects)@),
                sender,
                signed@,
                now,
            ),
    {
        if sender != signed.proposal.proposer {
            return Flow::Finish(None);
        }
        match signed.verify(self.replica.validators(), &**self.replica.scheme()) {
            Ok(()) => {},
            Err(error) => {
                return Flow::Fail(CoordinatorError::Consensus(error));
            },
        }
        if signed.proposal.height != self.replica.height() || signed.proposal.view
            != self.replica.view() || self.faults.withhold_votes {
            return Flow::Finish(None);
        }
        let block_id = signed.proposal.block_id;
        let known = round.observed_proposals.contains_key(&block_id);
        let ghost observed = round@.observed;
        let _ = round.observed_proposals.insert(block_id, signed.clone());
        proof {
            assert(proposals_of(round.observed_proposals@) =~= observed.insert(block_id, signed@));
            assert(round.observed_proposals@.dom() =~= observed.insert(block_id, signed@).dom());
        }
        if round.observed_proposals.len() > 1 {
            round.flags.equivocation_detected = true;
        }
        if !known {
            if round.first_proposal_at.is_none() {
                round.first_proposal_at = Some(now);
            }
            if round.relayed_proposals.insert(block_id) {
                perform(effects, Effect::Broadcast { message: WireMessage::Proposal(signed) });
            }
        }
        Flow::Finish(None)
    }

    fn receive_vote(&self, sender: Hash256, vote: Vote, round: &mut RoundState)
        ensures
            forall|effects: Seq<Effect>| #[trigger]
                turn_of(*self, *final(round), effects) == vote_received(
                    self.context(),
                    turn_of(*self, *old(round), effects),
                    sender,
                    vote@,
                ),
    {
        if sender != vote.validator || vote.height != self.replica.height() || vote.view
            != self.replica.view() {
            return;
        }
        if verify_vote(&vote, self.replica.validators(), &**self.replica.scheme()).is_err() {
            return;
        }
        match vote.phase {
            VotePhase::Order => record_first_vote(&mut round.order_votes, vote),
            VotePhase::Commit => record_first_vote(&mut round.commit_votes, vote),
            VotePhase::Timeout => {
                if vote.block_id == Hash256::default() {
                    record_first_vote(&mut round.timeout_votes, vote);
                }
            },
        }
    }

    /// Asks `peer` to replay the finalized orders this validator is missing,
    /// throttled so repeated behind-signals do not flood the peer.
    fn request_catchup(&mut self, peer: Hash256, now: u64, effects: &mut Vec<Effect>)
        ensures
            final(self).context() == old(self).context(),
            forall|round: RoundState| #[trigger]
                turn_of(*final(self), round, final(effects)@) == catchup_request(
                    turn_of(*old(self), round, old(effects)@),
                    peer,
                    now,
                ),
    {
        if let Some(last) = self.last_catchup_request {
            if elapsed(now, last) < CATCHUP_REQUEST_INTERVAL_MS {
                return;
            }
        }
        self.last_catchup_request = Some(now);
        let message = WireMessage::RequestOrders { from_height: self.replica.height() };
        perform(effects, Effect::Send { peer, message });
    }

    /// Checks the order that comes with a certificate against the block that the
    /// certificate names.
    fn check_certified_order(
        &self,
        certificate: &QuorumCertificate,
        transaction_ids: &Option<Vec<Hash256>>,
        fee_commitment: Option<Hash256>,
    ) -> (result: Result<(), CoordinatorError>)
        ensures
            match result {
                Ok(()) => certified_order_refusal(
                    self.safety(),
                    certificate@,
                    crate::node::round::optional_ids(*transaction_ids),
                    fee_commitment,
                ) is None,
                Err(error) => certified_order_refusal(
                    self.safety(),
                    certificate@,
                    crate::node::round::optional_ids(*transaction_ids),
                    fee_commitment,
                ) == Some(error),
            },
    {
        if certificate.kind == CertificateKind::Timeout {
            if transaction_ids.is_some() || fee_commitment.is_some() {
                return Err(CoordinatorError::InvalidCertifiedOrder);
            }
            return Ok(());
        }
        match (transaction_ids, fee_commitment) {
            (Some(ids), Some(commitment)) => {
                let expected = proposal_id(
                    certificate.height,
                    self.replica.parent_id(),
                    ids,
                    commitment,
                );
                if expected != certificate.block_id {
                    Err(CoordinatorError::InvalidCertifiedOrder)
                } else {
                    Ok(())
                }
            },
            _ => Err(CoordinatorError::MissingCertifiedOrder),
        }
    }

    fn receive_certificate(
        &mut self,
        sender: Hash256,
        certificate: QuorumCertificate,
        transaction_ids: Option<Vec<Hash256>>,
        fee_commitment: Option<Hash256>,
        round: &mut RoundState,
        now: u64,
        effects: &mut Vec<Effect>,
    ) -> (flow: Flow)
        ensures
            final(self).context() == old(self).context(),
            (turn_of(*final(self), *final(round), final(effects)@), flow) == certificate_received(
                old(self).context(),
                turn_of(*old(self), *old(round), old(effects)@),
                sender,
                certificate@,
                crate::node::round::optional_ids(transaction_ids),
                fee_commitment,
                now,
            ),
    {
        // Every certificate is quorum-authenticated in its own right. Any admitted
        // validator may aggregate and relay it, removing the designated leader as
        // a single point of liveness failure.
        if self.replica.validators().validator(sender).is_none() {
            return Flow::Finish(None);
        }
        match verify_certificate(&certificate, self.replica.validators(), &**self.replica.scheme()) {
            Ok(()) => {},
            Err(error) => {
                return Flow::Fail(CoordinatorError::Consensus(error));
            },
        }
        if certificate.height > self.replica.height() {
            // A verified certificate for a height beyond ours proves we have fallen
            // behind. Ask the sender to replay the orders we are missing.
            self.request_catchup(sender, now, effects);
            assert(turn_of(*self, *round, effects@) == catchup_request(
                turn_of(*old(self), *old(round), old(effects)@),
                sender,
                now,
            ));
            return Flow::Finish(None);
        }
        if certificate.height < self.replica.height() {
            return Flow::Finish(None);
        }
        match self.check_certified_order(&certificate, &transaction_ids, fee_commitment) {
            Ok(()) => {},
            Err(error) => {
                return Flow::Fail(error);
            },
        }
        match certificate.kind {
            CertificateKind::Prepare => {
                self.apply_prepare(&certificate, round, now, effects);
                Flow::Finish(None)
            },
            CertificateKind::Timeout => {
                if certificate.view != self.replica.view() {
                    return Flow::Finish(None);
                }
                match self.change_view(&certificate, round, now, effects) {
                    Flow::Fail(error) => Flow::Fail(error),
                    _ => Flow::Finish(None),
                }
            },
            _ => match (transaction_ids, fee_commitment) {
                (Some(ids), Some(commitment)) => self.apply_certificate(
                    certificate,
                    ids,
                    commitment,
                    round,
                    now,
                    effects,
                ),
                _ => {
                    assert(false);
                    Flow::Fail(CoordinatorError::MissingCertifiedOrder)
                },
            },
        }
    }

    /// Whether a replayed order can be applied at the current height. The order is
    /// untrusted, so its certificate is verified against the validator set and the
    /// order is bound to the certificate's block exactly as the live path does.
    fn is_replayable(&self, order: &FinalizedOrder) -> (fits: bool)
        ensures
            fits == replayable(self.context(), self.safety(), order@),
    {
        if order.height != self.replica.height() {
            return false;
        }
        let certificate = &order.certificate;
        if !(certificate.kind == CertificateKind::Fast || certificate.kind
            == CertificateKind::Commit) || certificate.height != order.height
            || certificate.block_id != order.block_id {
            return false;
        }
        if verify_certificate(
            certificate,
            self.replica.validators(),
            &**self.replica.scheme(),
        ).is_err() {
            return false;
        }
        proposal_id(
            certificate.height,
            self.replica.parent_id(),
            &order.transaction_ids,
            order.fee_commitment,
        ) == certificate.block_id
    }

    /// Replays a peer's finalized orders to catch up. Orders apply strictly in
    /// height order; a gap or any invalid order stops the batch without failing.
    fn apply_catchup_orders(
        &mut self,
        orders: Vec<FinalizedOrder>,
        round: &mut RoundState,
        now: u64,
        effects: &mut Vec<Effect>,
    ) -> (flow: Flow)
        ensures
            final(self).context() == old(self).context(),
            (turn_of(*final(self), *final(round), final(effects)@), flow) == orders_received(
                old(self).context(),
                turn_of(*old(self), *old(round), old(effects)@),
                orders_of(orders@),
                now,
            ),
    {
        let ghost context = self.context();
        let ghost entry = turn_of(*self, *round, effects@);
        let ghost all = orders_of(orders@);
        let mut last: Option<CoordinatorOutcome> = None;
        let mut index: usize = 0;
        let mut open = true;
        assert(all.skip(0) =~= all);
        while open && index < orders.len()
            invariant
                index <= orders@.len(),
                all == orders_of(orders@),
                context == old(self).context(),
                entry == turn_of(*old(self), *old(round), old(effects)@),
                self.context() == context,
                round@ == entry.round,
                replayed(context, entry, all, None) == replayed(
                    context,
                    turn_of(*self, *round, effects@),
                    if open {
                        all.skip(index as int)
                    } else {
                        Seq::empty()
                    },
                    last,
                ),
            decreases
                orders@.len() - index,
                if open {
                    1int
                } else {
                    0int
                },
        {
            let ghost rest = all.skip(index as int);
            proof {
                assert(rest[0] == orders@[index as int]@);
                assert(rest.drop_first() =~= all.skip(index + 1));
            }
            if orders[index].height < self.replica.height() {
                index += 1;
            } else if !self.is_replayable(&orders[index]) {
                open = false;
            } else {
                let order = orders[index].clone();
                let ghost before = turn_of(*self, *round, effects@);
                let committed = self.commit_finalized_order(order, 0, effects);
                assert((turn_of(*self, *round, effects@), committed) == commit_order_step(
                    context,
                    before,
                    rest[0],
                    0,
                ));
                match committed {
                    Err(error) => {
                        return Flow::Fail(error);
                    },
                    Ok(outcome) => {
                        last = Some(outcome);
                        index += 1;
                    },
                }
            }
        }
        proof {
            if open {
                assert(all.skip(index as int).len() == 0);
            }
        }
        if last.is_some() {
            *round = RoundState::new_height(now);
        }
        Flow::Finish(last)
    }

    /// What a received message does.
    pub fn receive(
        &mut self,
        envelope: Envelope,
        round: &mut RoundState,
        now: u64,
        effects: &mut Vec<Effect>,
    ) -> (flow: Flow)
        ensures
            final(self).context() == old(self).context(),
            (turn_of(*final(self), *final(round), final(effects)@), flow) == handle_step(
                old(self).context(),
                turn_of(*old(self), *old(round), old(effects)@),
                envelope.sender,
                envelope.message@,
                now,
            ),
    {
        let sender = envelope.sender;
        match envelope.message {
            WireMessage::Proposal(signed) => self.receive_proposal(
                sender,
                signed,
                round,
                now,
                effects,
            ),
            WireMessage::Vote(vote) => {
                let ghost value = vote@;
                self.receive_vote(sender, vote, round);
                assert(turn_of(*self, *round, effects@) == vote_received(
                    old(self).context(),
                    turn_of(*old(self), *old(round), old(effects)@),
                    sender,
                    value,
                ));
                Flow::Finish(None)
            },
            WireMessage::Certificate { certificate, transaction_ids, fee_commitment } => {
                self.receive_certificate(
                    sender,
                    certificate,
                    transaction_ids,
                    fee_commitment,
                    round,
                    now,
                    effects,
                )
            },
            WireMessage::RequestOrders { from_height } => {
                perform(effects, Effect::ServeOrders { peer: sender, from_height });
                Flow::Finish(None)
            },
            WireMessage::Orders(orders) => self.apply_catchup_orders(orders, round, now, effects),
        }
    }

    /// What a received message does.
    ///
    /// # Errors
    ///
    /// Returns invalid proposals and certificates and invariant breaks, which are
    /// fatal.
    pub fn handle(
        &mut self,
        envelope: Envelope,
        round: &mut RoundState,
        now: u64,
        effects: &mut Vec<Effect>,
    ) -> (result: Result<Option<CoordinatorOutcome>, CoordinatorError>)
        ensures
            final(self).context() == old(self).context(),
            ({
                let (turn, flow) = handle_step(
                    old(self).context(),
                    turn_of(*old(self), *old(round), old(effects)@),
                    envelope.sender,
                    envelope.message@,
                    now,
                );
                &&& turn_of(*final(self), *final(round), final(effects)@) == turn
                &&& result == flow_result(flow)
            }),
    {
        match self.receive(envelope, round, now, effects) {
            Flow::Continue => Ok(None),
            Flow::Finish(outcome) => Ok(outcome),
            Flow::Fail(error) => Err(error),
        }
    }
}

/// What the end of a turn reports.
pub open spec fn flow_result(flow: Flow) -> Result<Option<CoordinatorOutcome>, CoordinatorError> {
    match flow {
        Flow::Continue => Ok(None),
        Flow::Finish(outcome) => Ok(outcome),
        Flow::Fail(error) => Err(error),
    }
}

/// The identities of a stake table.
pub open spec fn ids_of(table: Seq<ValidatorModel>) -> Seq<Hash256> {
    table.map_values(|validator: ValidatorModel| validator.id)
}

/// The identities of a stake table.
pub fn validator_ids(validators: &ValidatorSet) -> (ids: Vec<Hash256>)
    ensures
        ids@ == ids_of(validators@),
{
    let list = validators.validators();
    let mut ids: Vec<Hash256> = Vec::new();
    let mut index: usize = 0;
    while index < list.len()
        invariant
            index <= list@.len(),
            crate::consensus::validators::models(list@) == validators@,
            ids@ == ids_of(validators@).take(index as int),
        decreases list@.len() - index,
    {
        ids.push(list[index].id);
        proof {
            assert(validators@[index as int] == list@[index as int]@);
            assert(ids@ =~= ids_of(validators@).take(index + 1));
        }
        index += 1;
    }
    assert(ids@ =~= ids_of(validators@));
    ids
}

} // verus!
