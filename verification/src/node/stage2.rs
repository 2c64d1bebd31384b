//! The steps of the pipeline around execution: orders are submitted height by
//! height, missing payloads are asked for, and misbehaving peers are banned.

use vstd::prelude::*;

use crate::bytes::{
    bytes_before, copy_bytes, is_before, lemma_bytes_before_total, lemma_bytes_before_transitive,
    same_bytes,
};
use crate::consensus::proposals::{FinalizedOrder, OrderModel};
use crate::crypto::byte_strings;
use crate::network::kestrel_cast::{config_check, shred_models, shreds_of, Shred, ShredModel};
use crate::network::service::{
    all_sent, refused_at, sent_as, GossipError, InboundShred, NetworkHandle, OutboundModel,
    OutboundShred, PeerBytes,
};
use crate::node::genesis::GenesisDocument;
use crate::node::lifecycle::LifecycleError;
use crate::node::payload::{block_encoding, encodable_block, PropagatedBlock};
use crate::node::pipeline::{
    is_peer_misbehaviour, blames_peer, offenses_of, requests_ban, tally_offense, OffenseCounts,
    PipelineError, Stage2PipelineConfig,
};
use crate::node::propagation::{can_start, cannot_start, PipelineProposalSource};
use crate::node::proposal_source::{next_count, order_search, payload_held, submission_noted};
use crate::ordered::OrderedMap;
use crate::types::{Address, Hash256};

verus! {

/// Live composition of gossip, relay, certified order and deferred execution,
/// apart from the sockets, the clock and the store.
pub struct Stage2Pipeline {
    peer_ids: Vec<PeerBytes>,
    local_peer_id: PeerBytes,
    pending_orders: OrderedMap<u64, FinalizedOrder>,
    submitted_height: u64,
    config: Stage2PipelineConfig,
    offense_counts: OffenseCounts,
    /// When to next ask peers for the payload this validator is stuck on.
    repair_after_ms: Option<u64>,
    /// The current backoff between asks.
    repair_backoff_ms: u64,
}

/// The value of a pipeline.
#[verifier::ext_equal]
pub struct DriverModel {
    pub peers: Seq<Seq<u8>>,
    pub local: Seq<u8>,
    pub pending: Map<u64, OrderModel>,
    pub submitted_height: u64,
    pub config: Stage2PipelineConfig,
    pub offenses: Map<Seq<u8>, u32>,
    pub repair_after_ms: Option<u64>,
    pub repair_backoff_ms: u64,
}

impl View for Stage2Pipeline {
    type V = DriverModel;

    closed spec fn view(&self) -> DriverModel {
        DriverModel {
            peers: byte_strings(self.peer_ids@),
            local: self.local_peer_id@,
            pending: self.pending_orders@.map_values(|order: FinalizedOrder| order@),
            submitted_height: self.submitted_height,
            config: self.config,
            offenses: self.offense_counts@,
            repair_after_ms: self.repair_after_ms,
            repair_backoff_ms: self.repair_backoff_ms,
        }
    }
}

/// The peers that a message goes to: all but two of them.
pub open spec fn peers_but(peers: Seq<Seq<u8>>, local: Seq<u8>, source: Seq<u8>) -> Seq<Seq<u8>>
    decreases peers.len(),
{
    if peers.len() == 0 {
        Seq::empty()
    } else {
        let earlier = peers_but(peers.drop_last(), local, source);
        if peers.last() == local || peers.last() == source {
            earlier
        } else {
            earlier.push(peers.last())
        }
    }
}

/// What a step of repair comes to: the height to ask for, if any, and the
/// pipeline after it.
pub open spec fn repair_step(state: DriverModel, now_ms: u64) -> (Option<u64>, DriverModel) {
    let height = next_count(state.submitted_height);
    if !state.pending.contains_key(height) {
        (
            None,
            DriverModel {
                repair_after_ms: None,
                repair_backoff_ms: state.config.payload_repair_delay_ms,
                ..state
            },
        )
    } else {
        match state.repair_after_ms {
            None => (
                None,
                DriverModel {
                    repair_after_ms: Some(
                        (now_ms + state.config.payload_repair_delay_ms) as u64,
                    ),
                    ..state
                },
            ),
            Some(deadline) => if now_ms < deadline {
                (None, state)
            } else {
                let backoff = doubled_within(
                    state.repair_backoff_ms,
                    state.config.maximum_payload_repair_backoff_ms,
                );
                (
                    Some(height),
                    DriverModel {
                        repair_backoff_ms: backoff,
                        repair_after_ms: Some((now_ms + backoff) as u64),
                        ..state
                    },
                )
            },
        }
    }
}

/// Twice a backoff, at most the maximum.
pub open spec fn doubled_within(backoff: u64, maximum: u64) -> u64 {
    if backoff * 2 <= maximum {
        (backoff * 2) as u64
    } else {
        maximum
    }
}

/// The pipeline once the order of the next height is submitted.
pub open spec fn advanced(state: DriverModel) -> DriverModel {
    let height = next_count(state.submitted_height);
    DriverModel {
        pending: state.pending.remove(height),
        submitted_height: height,
        repair_after_ms: None,
        repair_backoff_ms: state.config.payload_repair_delay_ms,
        ..state
    }
}

/// The pipeline once an offense of a peer is counted.
pub open spec fn offended(state: DriverModel, peer: Seq<u8>) -> DriverModel {
    DriverModel {
        offenses: state.offenses.insert(peer, (offenses_of(state.offenses, peer) + 1) as u32),
        ..state
    }
}

/// A shred on its way to peers in order, none of them asked to relay it.
pub open spec fn relays_of(targets: Seq<Seq<u8>>, shred: ShredModel) -> Seq<OutboundModel> {
    Seq::new(
        targets.len(),
        |i: int| OutboundModel { peer: targets[i], shred, relay_requested: false },
    )
}

/// Whether byte strings are listed in ascending order, each once.
pub open spec fn strictly_ascending(list: Seq<Seq<u8>>) -> bool {
    forall|i: int, j: int| #![trigger list[i], list[j]]
        0 <= i < j < list.len() ==> bytes_before(list[i], list[j])
}

/// Whether a list holds the peers of validators in ascending order, each once.
pub open spec fn lists_peers(list: Seq<Seq<u8>>, peers: Map<Hash256, PeerBytes>) -> bool {
    &&& strictly_ascending(list)
    &&& forall|peer: Seq<u8>| #[trigger] list.contains(peer) <==> is_peer_of(peers, peer)
}

/// Whether a validator has a peer.
pub open spec fn is_peer_of(peers: Map<Hash256, PeerBytes>, peer: Seq<u8>) -> bool {
    exists|id: Hash256| #[trigger] peers.contains_key(id) && peers[id]@ == peer
}

/// A pipeline that has received nothing since it started after a height.
pub open spec fn idle_driver(
    peers: Seq<Seq<u8>>,
    local: Seq<u8>,
    height: u64,
    config: Stage2PipelineConfig,
) -> DriverModel {
    DriverModel {
        peers,
        local,
        pending: Map::empty(),
        submitted_height: height,
        config,
        offenses: Map::empty(),
        repair_after_ms: None,
        repair_backoff_ms: config.payload_repair_delay_ms,
    }
}

impl Stage2Pipeline {
    /// A pipeline that continues after the last committed height, and the proposal
    /// source that goes with it: both run on the same settings and the same peers.
    /// Peers that several validators share count once.
    ///
    /// # Errors
    ///
    /// Rejects settings that cannot be run, an incomplete or foreign peer
    /// topology, a zero limit of transactions per scope, and the activation of
    /// an unsupported signature scheme.
    pub fn new(
        genesis: &GenesisDocument,
        local_peer_id: PeerBytes,
        validator_peers: OrderedMap<Hash256, PeerBytes>,
        admission_nonces: OrderedMap<Address, u64>,
        committed_height: u64,
        config: Stage2PipelineConfig,
    ) -> (result: Result<(Self, PipelineProposalSource), PipelineError>)
        ensures
            match result {
                Ok((pipeline, source)) => {
                    &&& can_start(*genesis, validator_peers@, local_peer_id@, config)
                    &&& source.starts_with(
                        *genesis,
                        validator_peers@,
                        local_peer_id@,
                        admission_nonces@,
                        committed_height,
                        config,
                    )
                    &&& lists_peers(pipeline@.peers, source.model().peers)
                    &&& pipeline@.config == source.model().config
                    &&& pipeline@ == idle_driver(
                        pipeline@.peers,
                        local_peer_id@,
                        committed_height,
                        config,
                    )
                },
                Err(error) => cannot_start(
                    *genesis,
                    validator_peers@,
                    local_peer_id@,
                    config,
                    error,
                ),
            },
    {
        let peer_ids = distinct_peers(&validator_peers);
        let source = match PipelineProposalSource::new(
            genesis,
            &local_peer_id,
            validator_peers,
            admission_nonces,
            committed_height,
            config,
        ) {
            Ok(source) => source,
            Err(error) => {
                return Err(error);
            },
        };
        let pipeline = Stage2Pipeline {
            peer_ids,
            local_peer_id,
            pending_orders: OrderedMap::new(),
            submitted_height: committed_height,
            config,
            offense_counts: OffenseCounts::new(),
            repair_after_ms: None,
            repair_backoff_ms: config.payload_repair_delay_ms,
        };
        assert(pipeline@.pending =~= Map::empty());
        Ok((pipeline, source))
    }

    /// The height after which the next order is submitted.
    pub fn submitted_height(&self) -> (height: u64)
        ensures
            height == self@.submitted_height,
    {
        self.submitted_height
    }

    /// Takes up a finalized order.
    pub fn receive_order(&mut self, order: FinalizedOrder)
        ensures
            final(self)@ == (DriverModel {
                pending: old(self)@.pending.insert(order@.height, order@),
                ..old(self)@
            }),
    {
        let ghost before = self@;
        let height: u64 = order.height;
        self.pending_orders.insert(height, order);
        assert(self@.pending =~= before.pending.insert(order@.height, order@));
    }

    /// Whether too many orders remain undelivered to execution. Asked once the
    /// available ones are submitted, since a backlog that clears is ordinary
    /// deferred execution.
    ///
    /// # Errors
    ///
    /// Fails where the backlog exceeds its bound.
    pub fn check_backlog(&self) -> (result: Result<(), PipelineError>)
        ensures
            match result {
                Ok(()) => self@.pending.dom().len() <= self@.config.maximum_pending_orders,
                Err(error) => {
                    &&& self@.pending.dom().len() > self@.config.maximum_pending_orders
                    &&& error == PipelineError::ExecutionBacklogExceeded {
                        pending: self@.pending.dom().len() as usize,
                        limit: self@.config.maximum_pending_orders,
                        awaiting_height: next_count(self@.submitted_height),
                    }
                },
            },
    {
        assert(self@.pending.dom() =~= self.pending_orders@.dom());
        let pending: usize = self.pending_orders.len();
        if pending > self.config.maximum_pending_orders {
            return Err(
                PipelineError::ExecutionBacklogExceeded {
                    pending,
                    limit: self.config.maximum_pending_orders,
                    awaiting_height: self.submitted_height.saturating_add(1),
                },
            );
        }
        Ok(())
    }

    /// The order of the next height with its payload, where both are there.
    ///
    /// # Errors
    ///
    /// Fails where the identifiers of a candidate's transactions cannot be
    /// computed.
    pub fn next_submission(&self, source: &PipelineProposalSource) -> (result: Result<
        Option<(FinalizedOrder, PropagatedBlock)>,
        PipelineError,
    >)
        ensures
            ({
                let height = next_count(self@.submitted_height);
                let order = self@.pending[height];
                if !self@.pending.contains_key(height) {
                    result matches Ok(None)
                } else {
                    match result {
                        Ok(Some((given, payload))) => given@ == order && order_search(
                            source.held(),
                            order.height,
                            order.transaction_ids,
                            order.fee_commitment,
                            Ok(Some(payload)),
                        ),
                        Ok(None) => order_search(
                            source.held(),
                            order.height,
                            order.transaction_ids,
                            order.fee_commitment,
                            Ok(None),
                        ),
                        Err(error) => order_search(
                            source.held(),
                            order.height,
                            order.transaction_ids,
                            order.fee_commitment,
                            Err(error),
                        ),
                    }
                }
            }),
    {
        let height: u64 = self.submitted_height.saturating_add(1);
        match self.pending_orders.get(&height) {
            None => Ok(None),
            Some(order) => match source.state().payload_for_order(order) {
                Ok(Some(payload)) => Ok(Some((order.clone(), payload))),
                Ok(None) => Ok(None),
                Err(error) => Err(error),
            },
        }
    }

    /// Records that the order of the next height was submitted to execution with
    /// a payload, and retires the payload's transactions. Returns the identifiers
    /// whose stored admissions are to be deleted.
    ///
    /// # Errors
    ///
    /// Fails where the identifiers cannot be computed, and where a transaction
    /// has no next nonce; the order is then gone, and the height is not passed.
    pub fn submission_done(
        &mut self,
        source: &mut PipelineProposalSource,
        payload: &PropagatedBlock,
    ) -> (result: Result<Vec<Hash256>, PipelineError>)
        requires
            old(source).wf(),
        ensures
            final(source).wf(),
            final(source).model() == old(source).model(),
            submission_noted(old(source).held(), final(source).held(), payload@, result),
            final(self)@ == (if result is Ok {
                advanced(old(self)@)
            } else {
                DriverModel {
                    pending: old(self)@.pending.remove(next_count(old(self)@.submitted_height)),
                    ..old(self)@
                }
            }),
    {
        let ghost before = self@;
        let height: u64 = self.submitted_height.saturating_add(1);
        self.pending_orders.remove(&height);
        assert(self@.pending =~= before.pending.remove(height));
        let result = source.state_mut().note_submitted(payload);
        if result.is_ok() {
            self.submitted_height = height;
            self.repair_after_ms = None;
            self.repair_backoff_ms = self.config.payload_repair_delay_ms;
        }
        result
    }

    /// Decides whether to ask peers for the payload this validator is stuck on,
    /// once it has clearly not arrived by itself; then backs off, so that a
    /// payload that is gone cannot generate unbounded traffic. Returns the height
    /// to ask for.
    pub fn request_payload_repair_if_stuck(&mut self, now_ms: u64) -> (height: Option<u64>)
        requires
            now_ms + old(self)@.config.payload_repair_delay_ms <= u64::MAX,
            now_ms + old(self)@.config.maximum_payload_repair_backoff_ms <= u64::MAX,
        ensures
            (height, final(self)@) == repair_step(old(self)@, now_ms),
    {
        let ghost before = self@;
        let height: u64 = self.submitted_height.saturating_add(1);
        assert(before.pending.contains_key(height) == self.pending_orders@.contains_key(height));
        if !self.pending_orders.contains_key(&height) {
            self.repair_after_ms = None;
            self.repair_backoff_ms = self.config.payload_repair_delay_ms;
            return None;
        }
        match self.repair_after_ms {
            None => {
                self.repair_after_ms = Some(now_ms + self.config.payload_repair_delay_ms);
                None
            },
            Some(deadline) => {
                if now_ms < deadline {
                    return None;
                }
                let maximum: u64 = self.config.maximum_payload_repair_backoff_ms;
                self.repair_backoff_ms = if self.repair_backoff_ms <= maximum / 2 {
                    self.repair_backoff_ms * 2
                } else {
                    maximum
                };
                self.repair_after_ms = Some(now_ms + self.repair_backoff_ms);
                Some(height)
            },
        }
    }

    /// The peers to ask for a payload: all but the node itself.
    pub fn repair_peers(&self) -> (peers: Vec<PeerBytes>)
        ensures
            byte_strings(peers@) == peers_but(self@.peers, self@.local, self@.local),
    {
        collect_peers(&self.peer_ids, &self.local_peer_id, &self.local_peer_id)
    }

    /// The peers to which a relay hands a shred: all but the node itself and the
    /// one it came from.
    pub fn relay_peers(&self, source: &[u8]) -> (peers: Vec<PeerBytes>)
        ensures
            byte_strings(peers@) == peers_but(self@.peers, self@.local, source@),
    {
        collect_peers(&self.peer_ids, &self.local_peer_id, source)
    }

    /// Hands a shred to all other peers, where relaying was asked for. They are
    /// not asked to relay it further.
    ///
    /// # Errors
    ///
    /// Returns the first refusal of the shred queue.
    pub fn relay_shred(&self, inbound: &InboundShred, network: &NetworkHandle) -> (result: Result<
        (),
        PipelineError,
    >)
        ensures
            ({
                let targets = peers_but(self@.peers, self@.local, inbound.source@);
                let sends = relays_of(targets, inbound.shred@);
                if !inbound.relay_requested {
                    result is Ok
                } else {
                    match result {
                        Ok(()) => all_sent(network, sends, Ok::<(), GossipError>(())),
                        Err(PipelineError::Gossip(error)) => all_sent(
                            network,
                            sends,
                            Err::<(), GossipError>(error),
                        ),
                        Err(_) => false,
                    }
                }
            }),
    {
        if !inbound.relay_requested {
            return Ok(());
        }
        let ghost sends = relays_of(
            peers_but(self@.peers, self@.local, inbound.source@),
            inbound.shred@,
        );
        let targets = self.relay_peers(&inbound.source);
        let mut index: usize = 0;
        assert(byte_strings(targets@).len() == targets@.len());
        while index < targets.len()
            invariant
                index <= targets@.len(),
                inbound.relay_requested,
                byte_strings(targets@) == peers_but(self@.peers, self@.local, inbound.source@),
                sends == relays_of(byte_strings(targets@), inbound.shred@),
                sends.len() == targets@.len(),
                forall|i: int|
                    0 <= i < index ==> sent_as(
                        network,
                        #[trigger] sends[i],
                        Ok::<(), GossipError>(()),
                    ),
            decreases targets@.len() - index,
        {
            let peer = copy_bytes(&targets[index]);
            let shred = inbound.shred.clone();
            let ghost handed = OutboundShred { peer, shred, relay_requested: false };
            assert(handed@ == sends[index as int]) by {
                assert(byte_strings(targets@)[index as int] == targets@[index as int]@);
            }
            let sent = network.try_send_shred(peer, shred);
            assert(network.shred_sent(handed, sent));
            assert(sent_as(network, sends[index as int], sent));
            match sent {
                Ok(()) => {},
                Err(error) => {
                    assert(refused_at(network, sends, index as int, error));
                    return Err(PipelineError::Gossip(error));
                },
            }
            index += 1;
        }
        Ok(())
    }

    /// The shreds with which a peer's repair request for a height is answered;
    /// none where no payload of that height is held.
    ///
    /// # Errors
    ///
    /// Returns encoding and erasure-coding failures.
    pub fn repair_shreds(&self, source: &PipelineProposalSource, height: u64) -> (result: Result<
        Vec<Shred>,
        PipelineError,
    >)
        ensures
            ({
                let data = self@.config.kestrel_cast.data_shards as nat;
                let parity = self@.config.kestrel_cast.parity_shards as nat;
                match payload_held(source.held(), height) {
                    None => result matches Ok(shreds) && shreds@.len() == 0,
                    Some(payload) => if !encodable_block(payload) {
                        result matches Err(PipelineError::Lifecycle(LifecycleError::Encoding(_)))
                    } else {
                        match config_check(data, parity) {
                            Err(error) => result == Err::<Vec<Shred>, PipelineError>(
                                PipelineError::Lifecycle(LifecycleError::KestrelCast(error)),
                            ),
                            Ok(()) => result matches Ok(shreds) && shred_models(shreds@)
                                == shreds_of(block_encoding(payload), data, parity),
                        }
                    },
                }
            }),
    {
        match source.state().payload_at_height(height) {
            None => Ok(Vec::new()),
            Some(payload) => match payload.shreds(self.config.kestrel_cast) {
                Ok(shreds) => Ok(shreds),
                Err(error) => Err(PipelineError::Lifecycle(error)),
            },
        }
    }

    /// Whether a further offense of a peer can be counted.
    pub fn can_count(&self, peer: &[u8]) -> (possible: bool)
        ensures
            possible == (offenses_of(self@.offenses, peer@) < u32::MAX),
    {
        self.offense_counts.total(peer) < u32::MAX
    }

    /// Records one invalid message from a peer. Returns whether the peer is to be
    /// banned: exactly when its count reaches the threshold.
    pub fn record_offense(&mut self, peer: &[u8]) -> (ban: bool)
        requires
            offenses_of(old(self)@.offenses, peer@) < u32::MAX,
        ensures
            ban == (offenses_of(old(self)@.offenses, peer@) + 1
                == old(self)@.config.peer_offense_ban_threshold),
            final(self)@ == offended(old(self)@, peer@),
    {
        let offenses: u32 = tally_offense(&mut self.offense_counts, peer);
        requests_ban(offenses, self.config.peer_offense_ban_threshold)
    }

    /// Decides on a message from a peer that was rejected: whether the peer is to
    /// be banned for it. A message that no peer is known to have sent, or that an
    /// honest peer may send, counts against nobody.
    pub fn reject_message(&mut self, source: Option<&PeerBytes>, error: &PipelineError) -> (ban: bool)
        requires
            source matches Some(peer) ==> offenses_of(old(self)@.offenses, peer@) < u32::MAX,
        ensures
            match source {
                Some(peer) if blames_peer(*error) => {
                    &&& ban == (offenses_of(old(self)@.offenses, peer@) + 1
                        == old(self)@.config.peer_offense_ban_threshold)
                    &&& final(self)@ == offended(old(self)@, peer@)
                },
                _ => !ban && final(self)@ == old(self)@,
            },
    {
        if is_peer_misbehaviour(error) {
            if let Some(peer) = source {
                return self.record_offense(peer);
            }
        }
        false
    }
}

/// The peers that a message goes to: all but two of them.
fn collect_peers(peers: &[PeerBytes], local: &[u8], source: &[u8]) -> (targets: Vec<PeerBytes>)
    ensures
        byte_strings(targets@) == peers_but(byte_strings(peers@), local@, source@),
{
    let ghost all = byte_strings(peers@);
    let mut targets: Vec<PeerBytes> = Vec::new();
    let mut index: usize = 0;
    proof {
        assert(all.take(0) =~= Seq::<Seq<u8>>::empty());
        assert(byte_strings(targets@) =~= Seq::<Seq<u8>>::empty());
    }
    while index < peers.len()
        invariant
            index <= peers@.len(),
            all == byte_strings(peers@),
            byte_strings(targets@) == peers_but(all.take(index as int), local@, source@),
        decreases peers@.len() - index,
    {
        let ghost so_far = targets@;
        proof {
            let longer = all.take(index + 1);
            assert(longer.drop_last() =~= all.take(index as int));
            assert(longer.last() == peers@[index as int]@);
        }
        if !same_bytes(&peers[index], local) && !same_bytes(&peers[index], source) {
            let peer = copy_bytes(&peers[index]);
            targets.push(peer);
            assert(byte_strings(targets@) =~= byte_strings(so_far).push(peer@));
        }
        index += 1;
    }
    assert(all.take(index as int) =~= all);
    targets
}

/// The peers of validators in ascending order, each once.
fn distinct_peers(validator_peers: &OrderedMap<Hash256, PeerBytes>) -> (peers: Vec<PeerBytes>)
    ensures
        lists_peers(byte_strings(peers@), validator_peers@),
{
    let ids = validator_peers.keys();
    let mut peers: Vec<PeerBytes> = Vec::new();
    let mut index: usize = 0;
    while index < ids.len()
        invariant
            index <= ids@.len(),
            forall|id: Hash256| ids@.contains(id) <==> validator_peers@.contains_key(id),
            strictly_ascending(byte_strings(peers@)),
            forall|peer: Seq<u8>| #[trigger]
                byte_strings(peers@).contains(peer) <==> exists|i: int|
                    0 <= i < index && validator_peers@[#[trigger] ids@[i]]@ == peer,
        decreases ids@.len() - index,
    {
        let ghost so_far = byte_strings(peers@);
        assert(ids@.contains(ids@[index as int]));
        if let Some(peer) = validator_peers.get(&ids[index]) {
            list_peer(&mut peers, peer);
            proof {
                let now = byte_strings(peers@);
                let added = peer@;
                assert forall|other: Seq<u8>| #[trigger] now.contains(other) <==> exists|i: int|
                    0 <= i < index + 1 && validator_peers@[#[trigger] ids@[i]]@ == other by {
                    assert(now.contains(other) <==> so_far.contains(other) || other == added);
                    if other == added {
                        assert(validator_peers@[ids@[index as int]]@ == other);
                    }
                    if so_far.contains(other) {
                        let i = choose|i: int|
                            0 <= i < index && validator_peers@[#[trigger] ids@[i]]@ == other;
                        assert(validator_peers@[ids@[i]]@ == other);
                    }
                    if exists|i: int|
                        0 <= i < index + 1 && validator_peers@[#[trigger] ids@[i]]@ == other {
                        let i = choose|i: int|
                            0 <= i < index + 1 && validator_peers@[#[trigger] ids@[i]]@ == other;
                        if i < index {
                            assert(so_far.contains(other));
                        }
                    }
                }
            }
        }
        index += 1;
    }
    proof {
        let listed = byte_strings(peers@);
        assert forall|peer: Seq<u8>| #[trigger] listed.contains(peer) <==> is_peer_of(
            validator_peers@,
            peer,
        ) by {
            if listed.contains(peer) {
                let i = choose|i: int|
                    0 <= i < index && validator_peers@[#[trigger] ids@[i]]@ == peer;
                assert(ids@.contains(ids@[i]));
                assert(validator_peers@.contains_key(ids@[i]));
            }
            if is_peer_of(validator_peers@, peer) {
                let id = choose|id: Hash256| #[trigger]
                    validator_peers@.contains_key(id) && validator_peers@[id]@ == peer;
                assert(ids@.contains(id));
                let i = choose|i: int| 0 <= i < ids@.len() && ids@[i] == id;
                assert(validator_peers@[ids@[i]]@ == peer);
            }
        }
    }
    peers
}

/// Adds a peer to an ascending list, where it is not there yet.
fn list_peer(peers: &mut Vec<PeerBytes>, peer: &[u8])
    requires
        strictly_ascending(byte_strings(old(peers)@)),
    ensures
        strictly_ascending(byte_strings(final(peers)@)),
        forall|other: Seq<u8>| #[trigger]
            byte_strings(final(peers)@).contains(other) <==> byte_strings(old(peers)@).contains(
                other,
            ) || other == peer@,
{
    let ghost before = byte_strings(peers@);
    let mut position: usize = 0;
    while position < peers.len() && is_before(&peers[position], peer)
        invariant
            position <= peers@.len(),
            before == byte_strings(peers@),
            forall|i: int| 0 <= i < position ==> bytes_before(#[trigger] before[i], peer@),
        decreases peers@.len() - position,
    {
        assert(before[position as int] == peers@[position as int]@);
        position += 1;
    }
    if position < peers.len() {
        assert(before[position as int] == peers@[position as int]@);
        if same_bytes(&peers[position], peer) {
            assert(before.contains(peer@));
            return ;
        }
    }
    let copy = copy_bytes(peer);
    peers.insert(position, copy);
    proof {
        let after = byte_strings(peers@);
        let at = position as int;
        assert(after =~= before.insert(at, peer@));
        if at < before.len() {
            lemma_bytes_before_total(before[at], peer@);
        }
        assert forall|i: int, j: int| #![trigger after[i], after[j]]
            0 <= i < j < after.len() implies bytes_before(after[i], after[j]) by {
            let a = if i < at {
                i
            } else {
                i - 1
            };
            let b = if j < at {
                j
            } else {
                j - 1
            };
            if i == at {
                assert(bytes_before(peer@, before[at]));
                if b > at {
                    assert(bytes_before(before[at], before[b]));
                    lemma_bytes_before_transitive(peer@, before[at], before[b]);
                }
            } else if j != at {
                assert(bytes_before(before[a], before[b]));
            }
        }
        assert forall|other: Seq<u8>| #[trigger] after.contains(other) <==> before.contains(other)
            || other == peer@ by {
            if before.contains(other) {
                let k = choose|k: int| 0 <= k < before.len() && before[k] == other;
                assert(after[if k < at {
                    k
                } else {
                    k + 1
                }] == other);
            }
            if after.contains(other) && other != peer@ {
                let k = choose|k: int| 0 <= k < after.len() && after[k] == other;
                assert(before[if k < at {
                    k
                } else {
                    k - 1
                }] == other);
            }
            assert(after[at] == peer@);
        }
    }
}

} // verus!
