//! The source of a validator's proposals: it builds payloads, sends their
//! shreds to relays and tells consensus what to order.

use vstd::prelude::*;

use crate::bytes::{copy_bytes, same_bytes};
use crate::consensus::proposals::fee_commitment_of;
use crate::crypto::CryptoError;
use crate::mempool::errors::MempoolError;
use crate::network::kestrel_cast::{
    config_check, planned_as, shred_models, shreds_of, stakes_of, weight_sum, KestrelCast,
    RelayCandidate, RelayPlan, Shred, ShredModel,
};
use crate::network::service::{
    all_sent, refused_at, sent_as, GossipError, NetworkHandle, OutboundModel, OutboundShred,
    PeerBytes,
};
use crate::node::coordinator::ProposedOrder;
use crate::node::genesis::{GenesisDocument, GenesisValidator};
use crate::node::lifecycle::{
    activated_schemes, all_supported, lowest_unsupported, same_ids, LifecycleError, PayloadDecoding,
    SchemesModel, TransactionValidator,
};
use crate::node::payload::{
    all_encodable, block_encoding, decode_transaction, encodable_block, ids_of,
    transaction_decoding, BlockModel, PropagatedBlock,
};
use crate::node::pipeline::{valid_settings, PayloadSlot, PipelineError, Stage2PipelineConfig};
use crate::node::proposal_source::{
    fresh_pipeline, payload_asked, rolled_back, PipelineModel, PipelineState,
};
use crate::ordered::{sorted_keys, OrderedMap, OrderedSet};
use crate::types::{Address, Hash256, SchemeId, Transaction, TransactionModel};

verus! {

/// The identities of validators, in order.
pub open spec fn validator_ids(validators: Seq<GenesisValidator>) -> Seq<Hash256> {
    validators.map_values(|entry: GenesisValidator| entry.validator.id)
}

/// Each validator of genesis has a peer and nobody else has, and the node itself
/// is among the peers.
pub open spec fn topology_matches(
    validators: Seq<GenesisValidator>,
    peers: Map<Hash256, PeerBytes>,
    local: Seq<u8>,
) -> bool {
    &&& peers.dom() == validator_ids(validators).to_set()
    &&& exists|id: Hash256| #[trigger] peers.contains_key(id) && peers[id]@ == local
}

/// The validators that may relay for this node: all but itself.
pub open spec fn relay_candidates(
    validators: Seq<GenesisValidator>,
    peers: Map<Hash256, PeerBytes>,
    local: Seq<u8>,
) -> Seq<RelayCandidate>
    decreases validators.len(),
{
    if validators.len() == 0 {
        Seq::empty()
    } else {
        let earlier = relay_candidates(validators.drop_last(), peers, local);
        let last = validators.last().validator;
        if peers[last.id]@ == local {
            earlier
        } else {
            earlier.push(RelayCandidate { id: last.id, stake: last.stake })
        }
    }
}

/// Builds proposals from admitted transactions and propagates them.
pub struct PipelineProposalSource {
    state: PipelineState,
    validator: TransactionValidator,
    validator_peers: OrderedMap<Hash256, PeerBytes>,
    candidates: Vec<RelayCandidate>,
    config: Stage2PipelineConfig,
}

/// The value of a source, apart from what it holds.
pub struct SourceModel {
    pub schemes: SchemesModel,
    pub peers: Map<Hash256, PeerBytes>,
    pub candidates: Seq<RelayCandidate>,
    pub config: Stage2PipelineConfig,
}

/// A shred on its way to a peer.
pub struct SendModel {
    pub peer: Seq<u8>,
    pub shred: ShredModel,
}

/// The values of shreds on their way, all of them asked to be relayed.
pub open spec fn send_models(sends: Seq<OutboundShred>) -> Seq<SendModel> {
    sends.map_values(|send: OutboundShred| SendModel { peer: send.peer@, shred: send.shred@ })
}

/// The shreds of one relay on their way to it.
pub open spec fn sends_to(peer: Seq<u8>, shreds: Seq<ShredModel>) -> Seq<SendModel> {
    shreds.map_values(|shred: ShredModel| SendModel { peer, shred })
}

/// The shreds of relays on their way to them, relay by relay.
pub open spec fn sends_of(
    relays: Seq<Hash256>,
    assignments: Map<Hash256, Vec<Shred>>,
    peers: Map<Hash256, PeerBytes>,
) -> Seq<SendModel>
    decreases relays.len(),
{
    if relays.len() == 0 {
        Seq::empty()
    } else {
        let last = relays.last();
        sends_of(relays.drop_last(), assignments, peers) + sends_to(
            peers[last]@,
            shred_models(assignments[last]@),
        )
    }
}

/// The lower of two counts.
pub open spec fn lower(left: usize, right: nat) -> usize {
    if left <= right {
        left
    } else {
        right as usize
    }
}

/// A plan of the relays of a payload, and the sends that carry it out.
pub open spec fn carries_out(
    source: SourceModel,
    payload: BlockModel,
    plan: RelayPlan,
    sends: Seq<SendModel>,
) -> bool {
    let shreds = shreds_of(
        block_encoding(payload),
        source.config.kestrel_cast.data_shards as nat,
        source.config.kestrel_cast.parity_shards as nat,
    );
    &&& planned_as(
        shreds[0].block_id,
        shreds,
        source.candidates,
        lower(source.config.relay_count, source.candidates.len()),
        source.config.replication_factor,
        Ok(plan),
    )
    &&& sends == sends_of(
        sorted_keys(plan.assignments@.dom()),
        plan.assignments@,
        source.peers,
    )
}

/// What planning the propagation of a payload comes to.
pub open spec fn propagation_planned(
    source: SourceModel,
    payload: BlockModel,
    result: Result<Vec<OutboundShred>, PipelineError>,
) -> bool {
    let data = source.config.kestrel_cast.data_shards as nat;
    let parity = source.config.kestrel_cast.parity_shards as nat;
    let shreds = shreds_of(block_encoding(payload), data, parity);
    if !encodable_block(payload) {
        result matches Err(PipelineError::Lifecycle(LifecycleError::Encoding(_)))
    } else {
        match config_check(data, parity) {
            Err(error) => result == Err::<Vec<OutboundShred>, PipelineError>(
                PipelineError::Lifecycle(LifecycleError::KestrelCast(error)),
            ),
            Ok(()) => match result {
                Ok(sends) => {
                    &&& exists|plan: RelayPlan| #[trigger]
                        carries_out(source, payload, plan, send_models(sends@))
                    &&& forall|i: int|
                        0 <= i < sends@.len() ==> (#[trigger] sends@[i]).relay_requested
                },
                Err(PipelineError::KestrelCast(error)) => planned_as(
                    shreds[0].block_id,
                    shreds,
                    source.candidates,
                    lower(source.config.relay_count, source.candidates.len()),
                    source.config.replication_factor,
                    Err(error),
                ),
                Err(_) => false,
            },
        }
    }
}

/// The total stake of the candidates can be drawn from.
pub open spec fn stakes_fit(candidates: Seq<RelayCandidate>) -> bool {
    weight_sum(stakes_of(candidates)) <= u64::MAX
}

/// The values of shreds on their way.
pub open spec fn outbound_models(sends: Seq<OutboundShred>) -> Seq<OutboundModel> {
    sends.map_values(|send: OutboundShred| send@)
}

/// The planned sends of a payload end so.
pub open spec fn sends_end(
    source: SourceModel,
    network: &NetworkHandle,
    payload: BlockModel,
    sends: Vec<OutboundShred>,
    result: Result<(), GossipError>,
) -> bool {
    &&& propagation_planned(source, payload, Ok(sends))
    &&& all_sent(network, outbound_models(sends@), result)
}

/// What propagating a payload comes to. It is done once for a slot, and trivially
/// where there is nobody to relay to; otherwise every planned send is handed to
/// the shred queue in order, up to the first that is refused, and the slot counts
/// as propagated exactly where all were taken.
pub open spec fn propagated_as(
    source: SourceModel,
    network: &NetworkHandle,
    before: PipelineModel,
    after: PipelineModel,
    slot: PayloadSlot,
    payload: BlockModel,
    result: Result<(), PipelineError>,
) -> bool {
    let marked = PipelineModel { propagated: before.propagated.insert(slot), ..before };
    if before.propagated.contains(slot) {
        result is Ok && after == before
    } else if source.candidates.len() == 0 {
        result is Ok && after == marked
    } else {
        match result {
            Ok(()) => {
                &&& after == marked
                &&& exists|sends: Vec<OutboundShred>| #[trigger]
                    sends_end(source, network, payload, sends, Ok(()))
            },
            Err(PipelineError::Gossip(error)) => {
                &&& after == before
                &&& exists|sends: Vec<OutboundShred>| #[trigger]
                    sends_end(source, network, payload, sends, Err(error))
            },
            Err(error) => {
                &&& after == before
                &&& propagation_planned(source, payload, Err(error))
            },
        }
    }
}

/// What proposing at a height and parent comes to: the payload held for them is
/// propagated. Where that succeeds and the payload's transactions can be encoded,
/// an order names them and the fees; otherwise there is none.
pub open spec fn proposed(
    source: SourceModel,
    network: &NetworkHandle,
    before: PipelineModel,
    after: PipelineModel,
    height: u64,
    parent_id: Hash256,
    order: Option<ProposedOrder>,
) -> bool {
    let slot = PayloadSlot { height, discriminator: parent_id };
    let maximum = source.config.maximum_block_transactions;
    exists|built: PipelineModel, result: Result<PropagatedBlock, PipelineError>|
        {
            &&& #[trigger] payload_asked(before, built, height, parent_id, maximum, result)
            &&& match result {
                Err(_) => order is None && after == built,
                Ok(payload) => exists|sent: Result<(), PipelineError>|
                    {
                        &&& #[trigger] propagated_as(
                            source,
                            network,
                            built,
                            after,
                            slot,
                            payload@,
                            sent,
                        )
                        &&& if sent is Ok && all_encodable(payload@.transactions) {
                            order matches Some(order) && order.transaction_ids@ == ids_of(
                                payload@.transactions,
                            ) && order.fee_commitment == fee_commitment_of(payload@.base_fees)
                        } else {
                            order is None
                        }
                    },
            }
        }
}

/// Whether a pipeline can run on settings, the validators of genesis and their
/// peers.
pub open spec fn can_start(
    genesis: GenesisDocument,
    peers: Map<Hash256, PeerBytes>,
    local: Seq<u8>,
    config: Stage2PipelineConfig,
) -> bool {
    &&& valid_settings(config)
    &&& topology_matches(genesis.validators@, peers, local)
    &&& config.per_scope_block_limit > 0
    &&& all_supported(genesis.active_signature_schemes@)
}

/// Whether an error is why a pipeline cannot run: the first of settings, topology,
/// scope limit and signature schemes that does not serve.
pub open spec fn cannot_start(
    genesis: GenesisDocument,
    peers: Map<Hash256, PeerBytes>,
    local: Seq<u8>,
    config: Stage2PipelineConfig,
    error: PipelineError,
) -> bool {
    if !valid_settings(config) {
        error == PipelineError::InvalidConfiguration
    } else if !topology_matches(genesis.validators@, peers, local) {
        error == PipelineError::InvalidPeerTopology
    } else if config.per_scope_block_limit == 0 {
        error == PipelineError::Mempool(MempoolError::ZeroScopeLimit)
    } else {
        error matches PipelineError::Lifecycle(LifecycleError::Crypto(
            CryptoError::ActivatedSchemeMissing(id),
        )) && lowest_unsupported(genesis.active_signature_schemes@, id)
    }
}

impl PipelineProposalSource {
    /// What the source holds.
    pub closed spec fn held(&self) -> PipelineModel {
        self.state@
    }

    /// What the source goes by.
    pub closed spec fn model(&self) -> SourceModel {
        SourceModel {
            schemes: self.validator@,
            peers: self.validator_peers@,
            candidates: self.candidates@,
            config: self.config,
        }
    }

    /// The held state is in order, and every candidate has a peer.
    pub closed spec fn wf(&self) -> bool {
        &&& self.state.wf()
        &&& forall|i: int|
            0 <= i < self.candidates@.len() ==> self.validator_peers@.contains_key(
                (#[trigger] self.candidates@[i]).id,
            )
    }

    /// The source before anything has arrived.
    pub open spec fn starts_with(
        &self,
        genesis: GenesisDocument,
        peers: Map<Hash256, PeerBytes>,
        local: Seq<u8>,
        nonces: Map<Address, u64>,
        height: u64,
        config: Stage2PipelineConfig,
    ) -> bool {
        &&& self.wf()
        &&& self.held() == fresh_pipeline(config, nonces, height)
        &&& self.model() == (SourceModel {
            schemes: activated_schemes(genesis.active_signature_schemes@),
            peers,
            candidates: relay_candidates(genesis.validators@, peers, local),
            config,
        })
    }

    /// Joins the settings, the validators of genesis and their peers with the
    /// nonces and the height that execution starts from.
    ///
    /// # Errors
    ///
    /// Rejects settings that cannot be run, an incomplete or foreign peer
    /// topology, a zero limit of transactions per scope, and the activation of
    /// an unsupported signature scheme.
    pub fn new(
        genesis: &GenesisDocument,
        local_peer_id: &[u8],
        validator_peers: OrderedMap<Hash256, PeerBytes>,
        admission_nonces: OrderedMap<Address, u64>,
        committed_height: u64,
        config: Stage2PipelineConfig,
    ) -> (result: Result<Self, PipelineError>)
        ensures
            match result {
                Ok(source) => {
                    &&& can_start(*genesis, validator_peers@, local_peer_id@, config)
                    &&& source.starts_with(
                        *genesis,
                        validator_peers@,
                        local_peer_id@,
                        admission_nonces@,
                        committed_height,
                        config,
                    )
                },
                Err(error) => cannot_start(
                    *genesis,
                    validator_peers@,
                    local_peer_id@,
                    config,
                    error,
                ),
            },
    {
        if !config.is_valid() {
            return Err(PipelineError::InvalidConfiguration);
        }
        if !check_topology(&genesis.validators, &validator_peers, local_peer_id) {
            return Err(PipelineError::InvalidPeerTopology);
        }
        let state = match PipelineState::new(config, admission_nonces, committed_height) {
            Ok(state) => state,
            Err(error) => {
                return Err(PipelineError::Mempool(error));
            },
        };
        let candidates = collect_candidates(&genesis.validators, &validator_peers, local_peer_id);
        let validator = match TransactionValidator::from_genesis(
            copy_schemes(&genesis.active_signature_schemes),
        ) {
            Ok(validator) => validator,
            Err(error) => {
                return Err(PipelineError::Lifecycle(error));
            },
        };
        Ok(PipelineProposalSource { state, validator, validator_peers, candidates, config })
    }

    /// Whether the total stake of the candidates can be drawn from.
    pub fn can_draw(&self) -> (fits: bool)
        ensures
            fits == stakes_fit(self.model().candidates),
    {
        let mut total: u64 = 0;
        let mut index: usize = 0;
        let ghost stakes = stakes_of(self.candidates@);
        assert(stakes.take(0) =~= Seq::<u64>::empty());
        while index < self.candidates.len()
            invariant
                index <= self.candidates@.len(),
                stakes == stakes_of(self.candidates@),
                total == weight_sum(stakes.take(index as int)),
            decreases self.candidates@.len() - index,
        {
            proof {
                let longer = stakes.take(index + 1);
                assert(longer.drop_last() =~= stakes.take(index as int));
                lemma_sum_grows(stakes, index + 1);
            }
            match total.checked_add(self.candidates[index].stake) {
                Some(sum) => {
                    total = sum;
                },
                None => {
                    return false;
                },
            }
            index += 1;
        }
        assert(stakes.take(index as int) =~= stakes);
        true
    }

    /// What is held, for reading.
    pub fn state(&self) -> (state: &PipelineState)
        ensures
            state@ == self.held(),
            self.wf() ==> state.wf(),
    {
        &self.state
    }

    /// What is held, for the steps of admission and submission.
    pub fn state_mut(&mut self) -> (state: &mut PipelineState)
        requires
            old(self).wf(),
        ensures
            state@ == old(self).held(),
            state.wf(),
            final(state).wf() ==> final(self).wf(),
            final(self).held() == final(state)@,
            final(self).model() == old(self).model(),
    {
        &mut self.state
    }

    /// The rules by which transactions are valid.
    pub fn validator(&self) -> (validator: &TransactionValidator)
        ensures
            validator@ == self.model().schemes,
    {
        &self.validator
    }

    /// Takes up the payload that the shreds of a block rebuilt to.
    ///
    /// # Errors
    ///
    /// Returns why the first invalid transaction is refused.
    pub fn accept_payload(
        &mut self,
        block_id: Hash256,
        payload: PropagatedBlock,
        decodings: Vec<PayloadDecoding>,
    ) -> (result: Result<(), PipelineError>)
        requires
            old(self).wf(),
            decodings@.len() == payload@.transactions.len(),
        ensures
            final(self).wf(),
            final(self).model() == old(self).model(),
            match result {
                Ok(()) => {
                    &&& crate::node::proposal_source::all_valid(
                        old(self).model().schemes,
                        payload@,
                        decodings@,
                    )
                    &&& final(self).held() == crate::node::proposal_source::rebuilt(
                        old(self).held(),
                        block_id,
                        payload@,
                    )
                },
                Err(error) => {
                    &&& crate::node::proposal_source::payload_refused(
                        old(self).model().schemes,
                        payload@,
                        decodings@,
                        error,
                    )
                    &&& final(self).held() == old(self).held()
                },
            },
    {
        self.state.accept_payload(&self.validator, block_id, payload, decodings)
    }

    /// Publishes an admitted transaction on the gossip path; where its queue
    /// refuses it, the admission is rolled back, and its stored record is to be
    /// deleted.
    ///
    /// # Errors
    ///
    /// Returns the refusal of the transaction queue.
    pub fn publish_admitted(&mut self, id: Hash256, encoded: Vec<u8>, network: &NetworkHandle) -> (
    result: Result<Hash256, PipelineError>)
        requires
            old(self).wf(),
        ensures
            final(self).wf(),
            final(self).model() == old(self).model(),
            match result {
                Ok(published) => {
                    &&& published == id
                    &&& network.transaction_sent(encoded, Ok::<(), GossipError>(()))
                    &&& final(self).held() == old(self).held()
                },
                Err(PipelineError::Gossip(error)) => {
                    &&& network.transaction_sent(encoded, Err::<(), GossipError>(error))
                    &&& final(self).held() == rolled_back(old(self).held(), id)
                },
                Err(_) => false,
            },
    {
        match network.try_publish_transaction(encoded) {
            Ok(()) => Ok(id),
            Err(error) => {
                self.state.rollback(id);
                Err(PipelineError::Gossip(error))
            },
        }
    }

    /// The shreds of a payload and the relays to which each goes.
    ///
    /// # Errors
    ///
    /// Returns encoding failures, and settings from which no relays can be planned.
    pub fn plan_propagation(&self, payload: &PropagatedBlock) -> (result: Result<
        Vec<OutboundShred>,
        PipelineError,
    >)
        requires
            self.wf(),
            stakes_fit(self.model().candidates),
        ensures
            propagation_planned(self.model(), payload@, result),
    {
        let ghost model = self.model();
        let shreds = match payload.shreds(self.config.kestrel_cast) {
            Ok(shreds) => shreds,
            Err(error) => {
                return Err(PipelineError::Lifecycle(error));
            },
        };
        proof {
            assert(shred_models(shreds@).len() == shreds@.len());
            assert(shred_models(shreds@)[0] == shreds@[0]@);
        }
        let relay_count: usize = if self.config.relay_count <= self.candidates.len() {
            self.config.relay_count
        } else {
            self.candidates.len()
        };
        let plan = match KestrelCast::relay_plan(
            shreds[0].block_id,
            &shreds,
            &self.candidates,
            relay_count,
            self.config.replication_factor,
        ) {
            Ok(plan) => plan,
            Err(error) => {
                return Err(PipelineError::KestrelCast(error));
            },
        };
        let relays = plan.assignments.keys();
        let mut sends: Vec<OutboundShred> = Vec::new();
        let mut index: usize = 0;
        proof {
            assert(relays@.take(0) =~= Seq::<Hash256>::empty());
            assert(send_models(sends@) =~= Seq::<SendModel>::empty());
        }
        while index < relays.len()
            invariant
                index <= relays@.len(),
                self.wf(),
                model == self.model(),
                relays@ == sorted_keys(plan.assignments@.dom()),
                plan.assignments@.dom() == plan.relays@.to_set(),
                forall|id: Hash256| relays@.contains(id) <==> plan.assignments@.contains_key(id),
                forall|k: int|
                    0 <= k < plan.relays@.len() ==> crate::network::kestrel_cast::is_candidate(
                        self.candidates@,
                        #[trigger] plan.relays@[k],
                    ),
                send_models(sends@) == sends_of(
                    relays@.take(index as int),
                    plan.assignments@,
                    model.peers,
                ),
                forall|i: int| 0 <= i < sends@.len() ==> (#[trigger] sends@[i]).relay_requested,
            decreases relays@.len() - index,
        {
            let relay = relays[index];
            proof {
                assert(relays@.contains(relay));
                assert(plan.assignments@.dom().contains(relay));
                assert(plan.relays@.contains(relay));
                let longer = relays@.take(index + 1);
                assert(longer.drop_last() =~= relays@.take(index as int));
                assert(longer.last() == relay);
            }
            if let Some(peer) = self.validator_peers.get(&relay) {
                if let Some(assigned) = plan.assignments.get(&relay) {
                    add_sends(&mut sends, peer, assigned);
                }
            }
            index += 1;
        }
        assert(relays@.take(index as int) =~= relays@);
        assert(carries_out(model, payload@, plan, send_models(sends@)));
        proof {
            lemma_planned(model, payload@, plan, sends);
        }
        Ok(sends)
    }

    /// Sends the shreds of a payload to their relays, once.
    ///
    /// # Errors
    ///
    /// Returns why no relays can be planned, and a refusal of the shred queue;
    /// propagation is then tried again.
    pub fn propagate(
        &mut self,
        height: u64,
        parent_id: Hash256,
        payload: &PropagatedBlock,
        network: &NetworkHandle,
    ) -> (result: Result<(), PipelineError>)
        requires
            old(self).wf(),
            stakes_fit(old(self).model().candidates),
        ensures
            final(self).wf(),
            final(self).model() == old(self).model(),
            propagated_as(
                old(self).model(),
                network,
                old(self).held(),
                final(self).held(),
                PayloadSlot { height, discriminator: parent_id },
                payload@,
                result,
            ),
    {
        let slot = PayloadSlot { height, discriminator: parent_id };
        if self.state.is_propagated(slot) {
            return Ok(());
        }
        if self.candidates.len() == 0 {
            self.state.mark_propagated(slot);
            return Ok(());
        }
        let sends = match self.plan_propagation(payload) {
            Ok(sends) => sends,
            Err(error) => {
                return Err(error);
            },
        };
        assert(propagation_planned(old(self).model(), payload@, Ok(sends)));
        let ghost planned = sends;
        match send_all(network, sends) {
            Ok(()) => {
                assert(sends_end(old(self).model(), network, payload@, planned, Ok(())));
                self.state.mark_propagated(slot);
                Ok(())
            },
            Err(error) => {
                assert(sends_end(old(self).model(), network, payload@, planned, Err(error)));
                Err(PipelineError::Gossip(error))
            },
        }
    }

    /// What to order at a height: the payload held for it is propagated, and its
    /// transactions and fees are named.
    pub fn transaction_ids(
        &mut self,
        height: u64,
        parent_id: Hash256,
        network: &NetworkHandle,
    ) -> (order: Option<ProposedOrder>)
        requires
            old(self).wf(),
            stakes_fit(old(self).model().candidates),
        ensures
            final(self).wf(),
            final(self).model() == old(self).model(),
            proposed(
                old(self).model(),
                network,
                old(self).held(),
                final(self).held(),
                height,
                parent_id,
                order,
            ),
    {
        let maximum: usize = self.config.maximum_block_transactions;
        let built = self.state.build_or_get_payload(height, parent_id, maximum);
        let ghost now = self.held();
        assert(payload_asked(old(self).held(), now, height, parent_id, maximum, built));
        let ghost asked = built;
        let payload = match built {
            Ok(payload) => payload,
            Err(_) => {
                proof {
                    lemma_not_proposed(
                        self.model(),
                        network,
                        old(self).held(),
                        now,
                        height,
                        parent_id,
                        asked,
                    );
                }
                return None;
            },
        };
        let slot = PayloadSlot { height, discriminator: parent_id };
        let sent = self.propagate(height, parent_id, &payload, network);
        assert(propagated_as(self.model(), network, now, self.held(), slot, payload@, sent));
        match sent {
            Ok(()) => {},
            Err(_) => {
                return None;
            },
        }
        match payload.transaction_ids() {
            Ok(transaction_ids) => Some(
                ProposedOrder { transaction_ids, fee_commitment: payload.fee_commitment() },
            ),
            Err(_) => None,
        }
    }

    /// Whether proposing now would order nothing.
    pub fn is_empty(&self) -> (empty: bool)
        ensures
            empty == (self.held().transactions == Map::<Hash256, TransactionModel>::empty()),
    {
        self.state.is_empty()
    }
}

/// The transaction that gossiped bytes encode.
///
/// # Errors
///
/// Rejects bytes that encode none.
pub fn decode_gossiped(bytes: &[u8]) -> (result: Result<Transaction, PipelineError>)
    ensures
        match result {
            Ok(transaction) => transaction_decoding(bytes@) == Some(transaction@),
            Err(error) => error is Encoding && transaction_decoding(bytes@) is None,
        },
{
    match decode_transaction(bytes) {
        Ok(transaction) => Ok(transaction),
        Err(reason) => Err(PipelineError::Encoding(reason)),
    }
}

/// Queues shreds in order, up to the first that is refused.
fn send_all(network: &NetworkHandle, sends: Vec<OutboundShred>) -> (result: Result<
    (),
    GossipError,
>)
    requires
        forall|i: int| 0 <= i < sends@.len() ==> (#[trigger] sends@[i]).relay_requested,
    ensures
        all_sent(network, outbound_models(sends@), result),
{
    let ghost all = outbound_models(sends@);
    let mut index: usize = 0;
    while index < sends.len()
        invariant
            index <= sends@.len(),
            all == outbound_models(sends@),
            forall|i: int| 0 <= i < sends@.len() ==> (#[trigger] sends@[i]).relay_requested,
            forall|i: int|
                0 <= i < index ==> sent_as(network, #[trigger] all[i], Ok::<(), GossipError>(())),
        decreases sends@.len() - index,
    {
        let peer = copy_bytes(&sends[index].peer);
        let shred = sends[index].shred.clone();
        let ghost handed = OutboundShred { peer, shred, relay_requested: true };
        assert(all[index as int] == sends@[index as int]@);
        assert(handed@ == all[index as int]);
        let sent = network.try_send_relay_shred(peer, shred);
        assert(network.shred_sent(handed, sent));
        assert(sent_as(network, all[index as int], sent));
        match sent {
            Ok(()) => {},
            Err(error) => {
                assert(refused_at(network, all, index as int, error));
                return Err(error);
            },
        }
        index += 1;
    }
    Ok(())
}

/// Adds the shreds of one relay to those on their way.
fn add_sends(sends: &mut Vec<OutboundShred>, peer: &[u8], shreds: &[Shred])
    requires
        forall|i: int| 0 <= i < old(sends)@.len() ==> (#[trigger] old(sends)@[i]).relay_requested,
    ensures
        send_models(final(sends)@) == send_models(old(sends)@) + sends_to(
            peer@,
            shred_models(shreds@),
        ),
        forall|i: int|
            0 <= i < final(sends)@.len() ==> (#[trigger] final(sends)@[i]).relay_requested,
{
    let ghost before = send_models(sends@);
    let ghost all = sends_to(peer@, shred_models(shreds@));
    let mut index: usize = 0;
    assert(before + all.take(0) =~= before);
    while index < shreds.len()
        invariant
            index <= shreds@.len(),
            all == sends_to(peer@, shred_models(shreds@)),
            send_models(sends@) == before + all.take(index as int),
            forall|i: int| 0 <= i < sends@.len() ==> (#[trigger] sends@[i]).relay_requested,
        decreases shreds@.len() - index,
    {
        let ghost earlier = sends@;
        let send = OutboundShred {
            peer: copy_bytes(peer),
            shred: shreds[index].clone(),
            relay_requested: true,
        };
        let ghost value = SendModel { peer: send.peer@, shred: send.shred@ };
        sends.push(send);
        proof {
            assert(send_models(sends@) =~= send_models(earlier).push(value));
            assert(all[index as int] == value);
            assert(before + all.take(index + 1) =~= (before + all.take(index as int)).push(value));
        }
        index += 1;
    }
    assert(all.take(index as int) =~= all);
}

/// Without a payload nothing is proposed.
proof fn lemma_not_proposed(
    source: SourceModel,
    network: &NetworkHandle,
    before: PipelineModel,
    built: PipelineModel,
    height: u64,
    parent_id: Hash256,
    result: Result<PropagatedBlock, PipelineError>,
)
    requires
        payload_asked(
            before,
            built,
            height,
            parent_id,
            source.config.maximum_block_transactions,
            result,
        ),
        result is Err,
    ensures
        proposed(source, network, before, built, height, parent_id, None),
{
}

/// Sends that carry out a plan are what planning comes to.
proof fn lemma_planned(
    source: SourceModel,
    payload: BlockModel,
    plan: RelayPlan,
    sends: Vec<OutboundShred>,
)
    requires
        encodable_block(payload),
        config_check(
            source.config.kestrel_cast.data_shards as nat,
            source.config.kestrel_cast.parity_shards as nat,
        ) is Ok,
        carries_out(source, payload, plan, send_models(sends@)),
        forall|i: int| 0 <= i < sends@.len() ==> (#[trigger] sends@[i]).relay_requested,
    ensures
        propagation_planned(source, payload, Ok(sends)),
{
    let planned: Result<Vec<OutboundShred>, PipelineError> = Ok(sends);
    assert(planned is Ok && planned->Ok_0 == sends);
    assert(propagation_planned(source, payload, planned));
}

/// Adding weights does not lower their sum.
proof fn lemma_sum_grows(weights: Seq<u64>, count: int)
    requires
        0 <= count <= weights.len(),
    ensures
        weight_sum(weights.take(count)) <= weight_sum(weights),
    decreases weights.len() - count,
{
    if count < weights.len() {
        lemma_sum_grows(weights, count + 1);
        assert(weights.take(count + 1).drop_last() =~= weights.take(count));
    } else {
        assert(weights.take(count) =~= weights);
    }
}

/// Whether each validator of genesis has a peer and nobody else has, and the
/// node itself is among the peers.
fn check_topology(
    validators: &[GenesisValidator],
    peers: &OrderedMap<Hash256, PeerBytes>,
    local: &[u8],
) -> (matches: bool)
    ensures
        matches == topology_matches(validators@, peers@, local@),
{
    let mut ids: Vec<Hash256> = Vec::new();
    let mut index: usize = 0;
    assert(ids@ =~= validator_ids(validators@).take(0));
    while index < validators.len()
        invariant
            index <= validators@.len(),
            ids@ == validator_ids(validators@).take(index as int),
        decreases validators@.len() - index,
    {
        ids.push(validators[index].validator.id);
        index += 1;
        assert(ids@ =~= validator_ids(validators@).take(index as int));
    }
    assert(ids@ =~= validator_ids(validators@));
    let expected = OrderedSet::from_keys(&ids).keys();
    let known = peers.keys();
    if !same_ids(&expected, &known) {
        proof {
            if peers@.dom() == ids@.to_set() {
                assert(expected@ == known@);
            }
        }
        return false;
    }
    proof {
        assert forall|id: Hash256| peers@.dom().contains(id) <==> ids@.to_set().contains(id) by {
            assert(known@.contains(id) <==> peers@.contains_key(id));
            assert(expected@.contains(id) <==> ids@.to_set().contains(id));
        }
        assert(peers@.dom() =~= ids@.to_set());
    }
    let mut position: usize = 0;
    while position < known.len()
        invariant
            position <= known@.len(),
            forall|id: Hash256| known@.contains(id) <==> peers@.contains_key(id),
            peers@.dom() == validator_ids(validators@).to_set(),
            forall|i: int| 0 <= i < position ==> peers@[#[trigger] known@[i]]@ != local@,
        decreases known@.len() - position,
    {
        assert(known@.contains(known@[position as int]));
        if let Some(peer) = peers.get(&known[position]) {
            if same_bytes(peer, local) {
                assert(peers@.contains_key(known@[position as int]));
                return true;
            }
        }
        position += 1;
    }
    proof {
        assert forall|id: Hash256| #[trigger] peers@.contains_key(id) implies peers@[id]@
            != local@ by {
            assert(known@.contains(id));
            let i = choose|i: int| 0 <= i < known@.len() && known@[i] == id;
            assert(peers@[known@[i]]@ != local@);
        }
    }
    false
}

/// The validators that may relay for this node: all but itself.
fn collect_candidates(
    validators: &[GenesisValidator],
    peers: &OrderedMap<Hash256, PeerBytes>,
    local: &[u8],
) -> (candidates: Vec<RelayCandidate>)
    requires
        topology_matches(validators@, peers@, local@),
    ensures
        candidates@ == relay_candidates(validators@, peers@, local@),
        forall|i: int|
            0 <= i < candidates@.len() ==> peers@.contains_key((#[trigger] candidates@[i]).id),
{
    let mut candidates: Vec<RelayCandidate> = Vec::new();
    let mut index: usize = 0;
    assert(validators@.take(0) =~= Seq::<GenesisValidator>::empty());
    while index < validators.len()
        invariant
            index <= validators@.len(),
            topology_matches(validators@, peers@, local@),
            candidates@ == relay_candidates(validators@.take(index as int), peers@, local@),
            forall|i: int|
                0 <= i < candidates@.len() ==> peers@.contains_key((#[trigger] candidates@[i]).id),
        decreases validators@.len() - index,
    {
        let id = validators[index].validator.id;
        let stake: u64 = validators[index].validator.stake;
        proof {
            let longer = validators@.take(index + 1);
            assert(longer.drop_last() =~= validators@.take(index as int));
            let ids = validator_ids(validators@);
            assert(ids[index as int] == id);
            assert(ids.contains(id));
            assert(peers@.dom().contains(id));
        }
        if let Some(peer) = peers.get(&id) {
            if !same_bytes(peer, local) {
                candidates.push(RelayCandidate { id, stake });
            }
        }
        index += 1;
    }
    assert(validators@.take(index as int) =~= validators@);
    candidates
}

/// An owned copy of a list of scheme identifiers.
fn copy_schemes(source: &[SchemeId]) -> (copy: Vec<SchemeId>)
    ensures
        copy@ == source@,
{
    let mut copy: Vec<SchemeId> = Vec::new();
    let mut index: usize = 0;
    while index < source.len()
        invariant
            index <= source@.len(),
            copy@ == source@.take(index as int),
        decreases source@.len() - index,
    {
        copy.push(source[index]);
        index += 1;
        assert(copy@ =~= source@.take(index as int));
    }
    assert(copy@ =~= source@);
    copy
}

} // verus!
