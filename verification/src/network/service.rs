//! The rules of the gossip service: what is sent, dropped, handed up or
//! answered. Sockets, queues and timers live outside; they report events and
//! perform the actions decided here.

use tokio::sync::mpsc::Sender;
use vstd::prelude::*;

use crate::bytes::{append, append_text, copy_bytes, same_bytes, text_bytes};
use crate::crypto::byte_strings;
use crate::network::kestrel_cast::{joined, Shred, ShredModel};
use crate::types::{hash_of, Hash256};

verus! {

/// The bytes that identify a peer on the gossip transport.
pub type PeerBytes = Vec<u8>;

/// Validator peer with a stable transport identity and dial address.
#[derive(Debug, PartialEq, Eq)]
pub struct ConfiguredPeer {
    pub peer_id: PeerBytes,
    pub address: String,
}

/// Operator-controlled fault injection on this node's transaction and shred
/// paths. All fields are disabled by default. Drops are deterministic in the
/// message payload, so a given transaction or shred is either always or never
/// dropped by a given node, keeping fault scenarios reproducible.
#[derive(Clone, Copy, Debug, PartialEq, Eq, Structural)]
pub struct NetworkFaults {
    /// Delay in milliseconds applied before each outbound transaction publish
    /// and shred send on this node, modelling added link latency.
    pub outbound_delay_ms: u64,
    /// Fraction of this node's outbound transaction publishes dropped, in basis
    /// points (0..=10000). 10000 silences its transaction gossip entirely.
    pub transaction_drop_basis_points: u16,
    /// Fraction of this node's outbound shred sends dropped, in basis points
    /// (0..=10000). 10000 models a fully dead relay/leader shred path on it.
    ///
    /// Drops are deterministic in the message, so a blocked path never reopens.
    /// That is the right model for a persistently dead relay, but it cannot
    /// exercise anything that retries: use the outage for that.
    pub shred_drop_basis_points: u16,
    /// Drops every outbound shred for this many milliseconds after the node
    /// starts, then delivers normally: a transient outage rather than a
    /// permanent one, which is the case payload repair exists to recover from.
    pub shred_outage_ms: u64,
}

impl Default for NetworkFaults {
    fn default() -> (faults: Self)
        ensures
            faults == (NetworkFaults {
                outbound_delay_ms: 0,
                transaction_drop_basis_points: 0,
                shred_drop_basis_points: 0,
                shred_outage_ms: 0,
            }),
    {
        NetworkFaults {
            outbound_delay_ms: 0,
            transaction_drop_basis_points: 0,
            shred_drop_basis_points: 0,
            shred_outage_ms: 0,
        }
    }
}

/// Independent bandwidth/queue settings for transaction and shred propagation.
#[derive(Debug)]
pub struct GossipConfig {
    pub listen_address: String,
    pub configured_peers: Vec<ConfiguredPeer>,
    pub transaction_queue_capacity: usize,
    pub shred_queue_capacity: usize,
    pub inbound_transaction_capacity: usize,
    pub inbound_shred_capacity: usize,
    pub transaction_max_bytes: usize,
    pub shred_max_bytes: usize,
    pub heartbeat_interval_ms: u64,
    pub faults: NetworkFaults,
}

impl Default for GossipConfig {
    fn default() -> (config: Self)
        ensures
            config.listen_address@ == "/ip4/0.0.0.0/tcp/0"@,
            config.configured_peers@.len() == 0,
            config.transaction_queue_capacity == 4_096,
            config.shred_queue_capacity == 16_384,
            config.inbound_transaction_capacity == 4_096,
            config.inbound_shred_capacity == 16_384,
            config.transaction_max_bytes == 524_288,
            config.shred_max_bytes == 2_097_152,
            config.heartbeat_interval_ms == 25,
            config.faults.shred_drop_basis_points == 0,
            config.faults.transaction_drop_basis_points == 0,
            config.faults.outbound_delay_ms == 0,
            config.faults.shred_outage_ms == 0,
    {
        GossipConfig {
            listen_address: "/ip4/0.0.0.0/tcp/0".to_owned(),
            configured_peers: Vec::new(),
            transaction_queue_capacity: 4_096,
            shred_queue_capacity: 16_384,
            inbound_transaction_capacity: 4_096,
            inbound_shred_capacity: 16_384,
            transaction_max_bytes: 512 * 1024,
            shred_max_bytes: 2 * 1024 * 1024,
            // With round-robin leadership the next height after a submission is
            // almost never led by the validator that admitted the transaction,
            // so it depends on gossip to reach the other validators' mempools
            // before their proposal is built: the heartbeat has to be short.
            heartbeat_interval_ms: 25,
            faults: NetworkFaults::default(),
        }
    }
}

/// Network construction and queue failures.
#[derive(Debug, PartialEq, Eq)]
pub enum GossipError {
    Setup(String),
    Listen(String),
    /// The transaction gossip queue is full or closed.
    TransactionQueueUnavailable,
    /// The shred propagation queue is full or closed.
    ShredQueueUnavailable,
    /// A transaction exceeds its configured maximum size.
    TransactionTooLarge,
    /// A shred exceeds its configured maximum size.
    ShredTooLarge,
    /// The peer ban queue is full or closed.
    BanQueueUnavailable,
}

/// Transaction received from the mempool gossip.
#[derive(Debug, PartialEq, Eq)]
pub struct InboundTransaction {
    pub source: Option<PeerBytes>,
    pub bytes: Vec<u8>,
}

/// Shred received directly from one leader or relay.
#[derive(Debug, PartialEq, Eq)]
pub struct InboundShred {
    pub source: PeerBytes,
    pub shred: Shred,
    /// True only on the leader-to-relay leg. A relay must fan this shred out
    /// directly to validators with the flag cleared, preventing multi-hop trees.
    pub relay_requested: bool,
}

/// A shred being delivered, or a request for the shreds of a height this peer
/// could not reconstruct.
///
/// Repair is keyed by height rather than by block id: a validator that never
/// received a payload cannot know its hash, since shreds are keyed by the hash
/// of the payload itself. Height is the only identifier a stuck validator
/// already has, from the certified order it is waiting to execute.
#[derive(Debug, PartialEq, Eq)]
pub enum ShredRequest {
    Deliver { shred: Shred, relay_requested: bool },
    RepairPayload { height: u64 },
}

/// The sending side of a Tokio queue.
#[verifier::external_type_specification]
#[verifier::external_body]
#[verifier::reject_recursive_types(T)]
pub struct ExSender<T>(tokio::sync::mpsc::Sender<T>);

/// Calls `tokio::sync::mpsc::Sender::try_send` and reports whether the queue
/// took the item. Whether it does depends on what the receiving task has drained
/// by then and on whether it still runs, so nothing is claimed of the answer.
#[verifier::external_body]
fn offer<T>(queue: &Sender<T>, item: T) -> (accepted: bool)
{
    queue.try_send(item).is_ok()
}

/// A shred on its way to one peer.
#[derive(Debug, PartialEq, Eq)]
pub struct OutboundShred {
    pub peer: PeerBytes,
    pub shred: Shred,
    pub relay_requested: bool,
}

/// The value of a shred on its way.
pub struct OutboundModel {
    pub peer: Seq<u8>,
    pub shred: ShredModel,
    pub relay_requested: bool,
}

impl View for OutboundShred {
    type V = OutboundModel;

    open spec fn view(&self) -> OutboundModel {
        OutboundModel {
            peer: self.peer@,
            shred: self.shred@,
            relay_requested: self.relay_requested,
        }
    }
}

/// A request for the payload of a height, on its way to one peer.
#[derive(Debug, PartialEq, Eq)]
pub struct OutboundRepair {
    pub peer: PeerBytes,
    pub height: u64,
}

/// Sender side of the independent transaction and shred paths.
#[derive(Debug)]
pub struct NetworkHandle {
    pub transaction_sender: Sender<Vec<u8>>,
    pub shred_sender: Sender<OutboundShred>,
    pub repair_sender: Sender<OutboundRepair>,
    pub ban_sender: Sender<PeerBytes>,
    pub transaction_max_bytes: usize,
    pub shred_max_bytes: usize,
}

/// What sending one shred of the given value comes to.
pub open spec fn sent_as(
    network: &NetworkHandle,
    send: OutboundModel,
    result: Result<(), GossipError>,
) -> bool {
    exists|outbound: OutboundShred| #[trigger]
        network.shred_sent(outbound, result) && outbound@ == send
}

/// All shreds before a position were taken, and the one there was refused.
pub open spec fn refused_at(
    network: &NetworkHandle,
    sends: Seq<OutboundModel>,
    position: int,
    error: GossipError,
) -> bool {
    &&& 0 <= position < sends.len()
    &&& forall|i: int|
        0 <= i < position ==> sent_as(network, #[trigger] sends[i], Ok::<(), GossipError>(()))
    &&& sent_as(network, sends[position], Err::<(), GossipError>(error))
}

/// What sending shreds in order comes to: success where every one is taken, and
/// otherwise the first refusal, behind which nothing is sent.
pub open spec fn all_sent(
    network: &NetworkHandle,
    sends: Seq<OutboundModel>,
    result: Result<(), GossipError>,
) -> bool {
    match result {
        Ok(()) => forall|i: int|
            0 <= i < sends.len() ==> sent_as(
                network,
                #[trigger] sends[i],
                Ok::<(), GossipError>(()),
            ),
        Err(error) => exists|position: int| #[trigger]
            refused_at(network, sends, position, error),
    }
}

/// The answer to queueing an item of `len` bytes on a path with a byte budget,
/// given whether the queue of that path took it.
pub open spec fn queueing_result(
    len: nat,
    budget: usize,
    too_large: GossipError,
    accepted: bool,
    unavailable: GossipError,
) -> Result<(), GossipError> {
    if len > budget {
        Err(too_large)
    } else if accepted {
        Ok(())
    } else {
        Err(unavailable)
    }
}

/// The answer to queueing a transaction of `len` bytes, given whether the
/// transaction queue took it.
///
/// # Errors
///
/// Returns an error if the transaction exceeds its budget or its queue is unavailable.
pub fn transaction_queueing(len: usize, budget: usize, accepted: bool) -> (result: Result<
    (),
    GossipError,
>)
    ensures
        result == queueing_result(
            len as nat,
            budget,
            GossipError::TransactionTooLarge,
            accepted,
            GossipError::TransactionQueueUnavailable,
        ),
{
    if len > budget {
        Err(GossipError::TransactionTooLarge)
    } else if accepted {
        Ok(())
    } else {
        Err(GossipError::TransactionQueueUnavailable)
    }
}

/// The answer to queueing a shred of `len` bytes, given whether the shred queue
/// took it.
///
/// # Errors
///
/// Returns an error if the shred exceeds its budget or its queue is unavailable.
pub fn shred_queueing(len: usize, budget: usize, accepted: bool) -> (result: Result<
    (),
    GossipError,
>)
    ensures
        result == queueing_result(
            len as nat,
            budget,
            GossipError::ShredTooLarge,
            accepted,
            GossipError::ShredQueueUnavailable,
        ),
{
    if len > budget {
        Err(GossipError::ShredTooLarge)
    } else if accepted {
        Ok(())
    } else {
        Err(GossipError::ShredQueueUnavailable)
    }
}

/// The answer to queueing a ban, given whether the ban queue took it.
///
/// # Errors
///
/// Returns an error if the ban queue is unavailable.
pub fn ban_queueing(accepted: bool) -> (result: Result<(), GossipError>)
    ensures
        result == (if accepted {
            Ok::<(), GossipError>(())
        } else {
            Err(GossipError::BanQueueUnavailable)
        }),
{
    if accepted {
        Ok(())
    } else {
        Err(GossipError::BanQueueUnavailable)
    }
}

impl NetworkHandle {
    /// Whether the repair queue, offered a request, can have answered so.
    pub closed spec fn repair_offered(&self, request: OutboundRepair, accepted: bool) -> bool {
        call_ensures(offer::<OutboundRepair>, (&self.repair_sender, request), accepted)
    }

    /// Whether the ban queue, offered a peer, can have answered so.
    pub closed spec fn ban_offered(&self, peer: PeerBytes, accepted: bool) -> bool {
        call_ensures(offer::<PeerBytes>, (&self.ban_sender, peer), accepted)
    }

    /// Whether the transaction queue, offered bytes, can have answered so.
    pub closed spec fn transaction_offered(&self, bytes: Vec<u8>, accepted: bool) -> bool {
        call_ensures(offer::<Vec<u8>>, (&self.transaction_sender, bytes), accepted)
    }

    /// Whether the shred queue, offered a shred, can have answered so.
    pub closed spec fn shred_offered(&self, outbound: OutboundShred, accepted: bool) -> bool {
        call_ensures(offer::<OutboundShred>, (&self.shred_sender, outbound), accepted)
    }

    /// What publishing a transaction comes to: one within its budget is offered to
    /// the transaction queue, whose answer decides.
    pub open spec fn transaction_sent(
        &self,
        bytes: Vec<u8>,
        result: Result<(), GossipError>,
    ) -> bool {
        if bytes@.len() > self.transaction_max_bytes {
            result == Err::<(), GossipError>(GossipError::TransactionTooLarge)
        } else {
            exists|accepted: bool| #[trigger]
                self.transaction_offered(bytes, accepted) && result == queueing_result(
                    bytes@.len(),
                    self.transaction_max_bytes,
                    GossipError::TransactionTooLarge,
                    accepted,
                    GossipError::TransactionQueueUnavailable,
                )
        }
    }

    /// What sending a shred comes to: one within its budget is offered to the
    /// shred queue, whose answer decides.
    pub open spec fn shred_sent(
        &self,
        outbound: OutboundShred,
        result: Result<(), GossipError>,
    ) -> bool {
        if outbound.shred.payload@.len() > self.shred_max_bytes {
            result == Err::<(), GossipError>(GossipError::ShredTooLarge)
        } else {
            exists|accepted: bool| #[trigger]
                self.shred_offered(outbound, accepted) && result == queueing_result(
                    outbound.shred.payload@.len(),
                    self.shred_max_bytes,
                    GossipError::ShredTooLarge,
                    accepted,
                    GossipError::ShredQueueUnavailable,
                )
        }
    }

    /// Queues a transaction without waiting for shred capacity.
    ///
    /// # Errors
    ///
    /// Returns an error if the transaction exceeds its budget or its queue is unavailable.
    pub fn try_publish_transaction(&self, bytes: Vec<u8>) -> (result: Result<(), GossipError>)
        ensures
            self.transaction_sent(bytes, result),
    {
        let len: usize = bytes.len();
        if len > self.transaction_max_bytes {
            return transaction_queueing(len, self.transaction_max_bytes, false);
        }
        let ghost published = bytes;
        let accepted = offer(&self.transaction_sender, bytes);
        assert(self.transaction_offered(published, accepted));
        transaction_queueing(len, self.transaction_max_bytes, accepted)
    }

    /// Queues a shred for one explicit relay or validator. The transport never
    /// forwards it automatically, preserving the single relay layer.
    ///
    /// # Errors
    ///
    /// Returns an error if the shred exceeds its budget or its queue is unavailable.
    pub fn try_send_shred(&self, peer: PeerBytes, shred: Shred) -> (result: Result<(), GossipError>)
        ensures
            self.shred_sent(OutboundShred { peer, shred, relay_requested: false }, result),
    {
        self.try_send_shred_inner(OutboundShred { peer, shred, relay_requested: false })
    }

    /// Queues the leader-to-relay leg of a shred. The receiving relay is
    /// instructed to perform exactly one direct validator fanout.
    ///
    /// # Errors
    ///
    /// Returns an error if the shred exceeds its budget or its queue is unavailable.
    pub fn try_send_relay_shred(&self, peer: PeerBytes, shred: Shred) -> (result: Result<
        (),
        GossipError,
    >)
        ensures
            self.shred_sent(OutboundShred { peer, shred, relay_requested: true }, result),
    {
        self.try_send_shred_inner(OutboundShred { peer, shred, relay_requested: true })
    }

    fn try_send_shred_inner(&self, outbound: OutboundShred) -> (result: Result<(), GossipError>)
        ensures
            self.shred_sent(outbound, result),
    {
        let len: usize = outbound.shred.payload.len();
        if len > self.shred_max_bytes {
            return shred_queueing(len, self.shred_max_bytes, false);
        }
        let ghost handed = outbound;
        let accepted = offer(&self.shred_sender, outbound);
        assert(self.shred_offered(handed, accepted));
        shred_queueing(len, self.shred_max_bytes, accepted)
    }

    /// Asks `peer` for the shreds of `height`, for a validator that has a
    /// certified order it cannot execute because the payload never arrived.
    ///
    /// Delivery is fire-and-forget, so a single lost send would otherwise strand
    /// that validator's execution permanently: it holds the order, and every
    /// transaction named in it, but cannot rebuild the payload because the
    /// leader's per-transaction base fees exist nowhere else and are bound by the
    /// certified fee commitment.
    ///
    /// # Errors
    ///
    /// Returns an error if the repair queue is full or the network task stopped.
    pub fn try_request_payload(&self, peer: PeerBytes, height: u64) -> (result: Result<
        (),
        GossipError,
    >)
        ensures
            exists|accepted: bool| #[trigger]
                self.repair_offered(OutboundRepair { peer, height }, accepted) && result
                    == queueing_result(
                    0,
                    self.shred_max_bytes,
                    GossipError::ShredTooLarge,
                    accepted,
                    GossipError::ShredQueueUnavailable,
                ),
    {
        let request = OutboundRepair { peer, height };
        let ghost asked = request;
        let accepted = offer(&self.repair_sender, request);
        assert(self.repair_offered(asked, accepted));
        shred_queueing(0, self.shred_max_bytes, accepted)
    }

    /// Blocks all present and future connections to and from `peer` and closes
    /// any connection to it immediately. Intended for a peer that has
    /// repeatedly sent invalid gossip; there is no automatic unban.
    ///
    /// # Errors
    ///
    /// Returns an error if the ban queue is full or the network task stopped.
    pub fn ban_peer(&self, peer: PeerBytes) -> (result: Result<(), GossipError>)
        ensures
            exists|accepted: bool| #[trigger]
                self.ban_offered(peer, accepted) && result == (if accepted {
                    Ok::<(), GossipError>(())
                } else {
                    Err(GossipError::BanQueueUnavailable)
                }),
    {
        let ghost banned = peer;
        let accepted = offer(&self.ban_sender, peer);
        assert(self.ban_offered(banned, accepted));
        ban_queueing(accepted)
    }
}

/// What a drop decision samples.
pub open spec fn drop_bytes(parts: Seq<Seq<u8>>) -> Seq<u8> {
    text_bytes("kestrel/network/drop/v1") + joined(parts)
}

/// The sample of a digest: its first two bytes, modulo ten thousand.
pub open spec fn drop_sample(digest: Hash256) -> int {
    (digest@[0] * 256 + digest@[1]) % 10_000
}

/// Whether a message is dropped.
pub open spec fn is_dropped(basis_points: u16, parts: Seq<Seq<u8>>) -> bool {
    basis_points != 0 && drop_sample(hash_of(drop_bytes(parts))) < basis_points
}

/// The sample of a digest: its first two bytes, modulo ten thousand.
pub fn sample_of_digest(digest: &Hash256) -> (sample: u16)
    ensures
        sample == drop_sample(*digest),
{
    let bytes = digest.as_bytes();
    (bytes[0] as u16 * 256 + bytes[1] as u16) % 10_000
}

/// Deterministically decides whether to drop a message, sampling a stable hash
/// of the seed parts so the same message is either always or never dropped by a
/// given node.
pub fn deterministic_drop(basis_points: u16, seed: &[Vec<u8>]) -> (dropped: bool)
    ensures
        dropped == is_dropped(basis_points, byte_strings(seed@)),
{
    if basis_points == 0 {
        return false;
    }
    let mut bytes: Vec<u8> = Vec::new();
    append_text(&mut bytes, "kestrel/network/drop/v1");
    let ghost domain = bytes@;
    let ghost parts = byte_strings(seed@);
    let mut index: usize = 0;
    assert(bytes@ =~= domain + joined(parts.take(0)));
    while index < seed.len()
        invariant
            index <= seed@.len(),
            parts == byte_strings(seed@),
            bytes@ == domain + joined(parts.take(index as int)),
        decreases seed@.len() - index,
    {
        append(&mut bytes, &seed[index]);
        proof {
            let next = parts.take(index + 1);
            assert(next.drop_last() =~= parts.take(index as int));
            assert(next.last() == seed@[index as int]@);
            assert(bytes@ =~= domain + joined(next));
        }
        index += 1;
    }
    assert(parts.take(index as int) =~= parts);
    let digest = Hash256::digest(&bytes);
    sample_of_digest(&digest) < basis_points
}

/// Without a fault nothing is dropped, and from ten thousand basis points on
/// everything is.
pub proof fn law_drop_extremes(basis_points: u16, parts: Seq<Seq<u8>>)
    ensures
        !is_dropped(0, parts),
        basis_points >= 10_000 ==> is_dropped(basis_points, parts),
{
    let digest = hash_of(drop_bytes(parts));
    assert(0 <= digest@[0] * 256 + digest@[1]);
}

/// What happens at the edge of the gossip service.
pub enum NetworkEvent {
    /// A transaction was queued for publication.
    TransactionQueued { bytes: Vec<u8> },
    /// A shred was queued for a peer; `elapsed_ms` is the age of the node.
    ShredQueued { peer: PeerBytes, shred: Shred, relay_requested: bool, elapsed_ms: u64 },
    /// A payload repair was queued for a peer.
    RepairQueued { peer: PeerBytes, height: u64 },
    /// A peer is to be banned.
    BanQueued { peer: PeerBytes },
    /// Local discovery found peers.
    Discovered { peers: Vec<PeerBytes> },
    /// Local discovery lost peers.
    Expired { peers: Vec<PeerBytes> },
    /// A transaction arrived over gossip.
    TransactionReceived { author: Option<PeerBytes>, propagated_by: PeerBytes, bytes: Vec<u8> },
    /// A request arrived over the shred protocol.
    RequestReceived { peer: PeerBytes, request: ShredRequest },
    /// Anything else that the transport reports.
    Other,
    /// Every queue and the transport are closed.
    Closed,
}

/// What the edge of the gossip service does next.
pub enum NetworkAction {
    /// Wait for the next event.
    Continue,
    /// Publish a transaction after a delay.
    Publish { delay_ms: u64, bytes: Vec<u8> },
    /// Send a request to a peer after a delay.
    Send { delay_ms: u64, peer: PeerBytes, request: ShredRequest },
    /// Block a peer.
    Block { peer: PeerBytes },
    /// Keep the gossip mesh connected to peers.
    AddExplicitPeers { peers: Vec<PeerBytes> },
    /// No longer keep the gossip mesh connected to peers.
    RemoveExplicitPeers { peers: Vec<PeerBytes> },
    /// Hand a transaction up if there is room for it.
    HandUpTransaction { transaction: InboundTransaction },
    /// Hand a shred up if there is room for it, then acknowledge the request.
    HandUpShred { shred: InboundShred },
    /// Hand a repair request up if there is room for it, then acknowledge it.
    HandUpRepair { peer: PeerBytes, height: u64 },
    /// Acknowledge a request that carried too much.
    Acknowledge,
    /// End the service.
    Stop,
}

/// The author of a transaction, or else the peer that passed it on.
pub open spec fn source_of(author: Option<PeerBytes>, propagated_by: PeerBytes) -> Option<
    PeerBytes,
> {
    match author {
        Some(peer) => Some(peer),
        None => Some(propagated_by),
    }
}

/// What an event calls for.
pub open spec fn reaction(
    faults: NetworkFaults,
    shred_max_bytes: usize,
    local: Seq<u8>,
    event: NetworkEvent,
) -> NetworkAction {
    match event {
        NetworkEvent::TransactionQueued { bytes } => if is_dropped(
            faults.transaction_drop_basis_points,
            seq![local, bytes@],
        ) {
            NetworkAction::Continue
        } else {
            NetworkAction::Publish { delay_ms: faults.outbound_delay_ms, bytes }
        },
        NetworkEvent::ShredQueued { peer, shred, relay_requested, elapsed_ms } => if elapsed_ms
            < faults.shred_outage_ms || is_dropped(
            faults.shred_drop_basis_points,
            seq![local, peer@, shred.payload@],
        ) {
            NetworkAction::Continue
        } else {
            NetworkAction::Send {
                delay_ms: faults.outbound_delay_ms,
                peer,
                request: ShredRequest::Deliver { shred, relay_requested },
            }
        },
        NetworkEvent::RepairQueued { peer, height } => NetworkAction::Send {
            delay_ms: 0,
            peer,
            request: ShredRequest::RepairPayload { height },
        },
        NetworkEvent::BanQueued { peer } => NetworkAction::Block { peer },
        NetworkEvent::Discovered { peers } => NetworkAction::AddExplicitPeers { peers },
        NetworkEvent::Expired { peers } => NetworkAction::RemoveExplicitPeers { peers },
        NetworkEvent::TransactionReceived { author, propagated_by, bytes } => {
            NetworkAction::HandUpTransaction {
                transaction: InboundTransaction { source: source_of(author, propagated_by), bytes },
            }
        },
        NetworkEvent::RequestReceived { peer, request } => match request {
            ShredRequest::Deliver { shred, relay_requested } => if shred.payload@.len()
                <= shred_max_bytes {
                NetworkAction::HandUpShred {
                    shred: InboundShred { source: peer, shred, relay_requested },
                }
            } else {
                NetworkAction::Acknowledge
            },
            ShredRequest::RepairPayload { height } => NetworkAction::HandUpRepair { peer, height },
        },
        NetworkEvent::Other => NetworkAction::Continue,
        NetworkEvent::Closed => NetworkAction::Stop,
    }
}

/// Static per-run delivery settings of the service.
#[derive(Clone, Copy, Debug)]
pub struct RunConfig {
    pub shred_max_bytes: usize,
    pub faults: NetworkFaults,
}

impl RunConfig {
    /// Decides what an event calls for, for the node with the given identity.
    pub fn react(&self, local: &[u8], event: NetworkEvent) -> (action: NetworkAction)
        ensures
            action == reaction(self.faults, self.shred_max_bytes, local@, event),
    {
        match event {
            NetworkEvent::TransactionQueued { bytes } => {
                let mut seed: Vec<Vec<u8>> = Vec::new();
                seed.push(copy_bytes(local));
                seed.push(copy_bytes(&bytes));
                assert(byte_strings(seed@) =~= seq![local@, bytes@]);
                if deterministic_drop(self.faults.transaction_drop_basis_points, &seed) {
                    NetworkAction::Continue
                } else {
                    NetworkAction::Publish { delay_ms: self.faults.outbound_delay_ms, bytes }
                }
            },
            NetworkEvent::ShredQueued { peer, shred, relay_requested, elapsed_ms } => {
                let mut seed: Vec<Vec<u8>> = Vec::new();
                seed.push(copy_bytes(local));
                seed.push(copy_bytes(&peer));
                seed.push(copy_bytes(&shred.payload));
                assert(byte_strings(seed@) =~= seq![local@, peer@, shred.payload@]);
                if elapsed_ms < self.faults.shred_outage_ms || deterministic_drop(
                    self.faults.shred_drop_basis_points,
                    &seed,
                ) {
                    NetworkAction::Continue
                } else {
                    NetworkAction::Send {
                        delay_ms: self.faults.outbound_delay_ms,
                        peer,
                        request: ShredRequest::Deliver { shred, relay_requested },
                    }
                }
            },
            NetworkEvent::RepairQueued { peer, height } => NetworkAction::Send {
                delay_ms: 0,
                peer,
                request: ShredRequest::RepairPayload { height },
            },
            NetworkEvent::BanQueued { peer } => NetworkAction::Block { peer },
            NetworkEvent::Discovered { peers } => NetworkAction::AddExplicitPeers { peers },
            NetworkEvent::Expired { peers } => NetworkAction::RemoveExplicitPeers { peers },
            NetworkEvent::TransactionReceived { author, propagated_by, bytes } => {
                let source = match author {
                    Some(peer) => Some(peer),
                    None => Some(propagated_by),
                };
                NetworkAction::HandUpTransaction { transaction: InboundTransaction { source, bytes } }
            },
            NetworkEvent::RequestReceived { peer, request } => match request {
                ShredRequest::Deliver { shred, relay_requested } => {
                    if shred.payload.len() <= self.shred_max_bytes {
                        NetworkAction::HandUpShred {
                            shred: InboundShred { source: peer, shred, relay_requested },
                        }
                    } else {
                        NetworkAction::Acknowledge
                    }
                },
                ShredRequest::RepairPayload { height } => NetworkAction::HandUpRepair {
                    peer,
                    height,
                },
            },
            NetworkEvent::Other => NetworkAction::Continue,
            NetworkEvent::Closed => NetworkAction::Stop,
        }
    }
}

/// The peers to connect to at startup: all configured ones but the node itself.
pub open spec fn other_peers(peers: Seq<ConfiguredPeer>, local: Seq<u8>) -> Seq<int>
    decreases peers.len(),
{
    if peers.len() == 0 {
        Seq::empty()
    } else {
        let earlier = other_peers(peers.drop_last(), local);
        if peers.last().peer_id@ == local {
            earlier
        } else {
            earlier.push(peers.len() - 1)
        }
    }
}

/// The positions of the peers to connect to at startup: all configured ones
/// but the node itself.
pub fn peers_to_dial(peers: &[ConfiguredPeer], local: &[u8]) -> (positions: Vec<usize>)
    ensures
        positions@.map_values(|position: usize| position as int) == other_peers(peers@, local@),
{
    let mut positions: Vec<usize> = Vec::new();
    let mut index: usize = 0;
    assert(positions@.map_values(|position: usize| position as int) =~= other_peers(
        peers@.take(0),
        local@,
    ));
    while index < peers.len()
        invariant
            index <= peers@.len(),
            positions@.map_values(|position: usize| position as int) == other_peers(
                peers@.take(index as int),
                local@,
            ),
        decreases peers@.len() - index,
    {
        let ghost before = positions@.map_values(|position: usize| position as int);
        proof {
            let next = peers@.take(index + 1);
            assert(next.drop_last() =~= peers@.take(index as int));
            assert(next.last() == peers@[index as int]);
        }
        if !same_bytes(&peers[index].peer_id, local) {
            positions.push(index);
            assert(positions@.map_values(|position: usize| position as int) =~= before.push(
                index as int,
            ));
        }
        index += 1;
    }
    assert(peers@.take(index as int) =~= peers@);
    positions
}

/// A node that drops ten thousand basis points of a path, or more, sends nothing
/// on it.
pub proof fn law_silenced_path_sends_nothing(
    faults: NetworkFaults,
    shred_max_bytes: usize,
    local: Seq<u8>,
    peer: PeerBytes,
    bytes: Vec<u8>,
    shred: Shred,
    relay_requested: bool,
    elapsed_ms: u64,
)
    ensures
        faults.transaction_drop_basis_points >= 10_000 ==> reaction(
            faults,
            shred_max_bytes,
            local,
            NetworkEvent::TransactionQueued { bytes },
        ) == NetworkAction::Continue,
        faults.shred_drop_basis_points >= 10_000 ==> reaction(
            faults,
            shred_max_bytes,
            local,
            NetworkEvent::ShredQueued { peer, shred, relay_requested, elapsed_ms },
        ) == NetworkAction::Continue,
{
    law_drop_extremes(faults.transaction_drop_basis_points, seq![local, bytes@]);
    law_drop_extremes(faults.shred_drop_basis_points, seq![local, peer@, shred.payload@]);
}

/// A node without drops sends every queued transaction and, once its outage is
/// over, every queued shred: an outage loses nothing that is sent after it.
pub proof fn law_lossless_path_sends_everything(
    faults: NetworkFaults,
    shred_max_bytes: usize,
    local: Seq<u8>,
    peer: PeerBytes,
    bytes: Vec<u8>,
    shred: Shred,
    relay_requested: bool,
    elapsed_ms: u64,
)
    ensures
        faults.transaction_drop_basis_points == 0 ==> reaction(
            faults,
            shred_max_bytes,
            local,
            NetworkEvent::TransactionQueued { bytes },
        ) == (NetworkAction::Publish { delay_ms: faults.outbound_delay_ms, bytes }),
        faults.shred_drop_basis_points == 0 && faults.shred_outage_ms <= elapsed_ms ==> reaction(
            faults,
            shred_max_bytes,
            local,
            NetworkEvent::ShredQueued { peer, shred, relay_requested, elapsed_ms },
        ) == (NetworkAction::Send {
            delay_ms: faults.outbound_delay_ms,
            peer,
            request: ShredRequest::Deliver { shred, relay_requested },
        }),
{
}

} // verus!
