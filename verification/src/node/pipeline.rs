//! Settings and rules of the transaction and shred pipeline: which shreds make
//! room for others, which peers are banned, and what is kept under which key.

use libp2p::PeerId;
use vstd::prelude::*;

use crate::bytes::{append, append_text, copy_bytes, same_bytes, text_bytes};
use crate::mempool::errors::MempoolError;
use crate::network::kestrel_cast::{KestrelCastConfig, KestrelCastError, Shred};
use crate::network::service::{GossipError, PeerBytes};
use crate::node::lifecycle::LifecycleError;
use crate::ordered::{OrderedMap, SortKey};
use crate::types::{Address, Hash256};

verus! {

/// Bounded production composition settings for the pipeline.
#[derive(Clone, Copy, Debug, PartialEq, Eq, Structural)]
pub struct Stage2PipelineConfig {
    pub maximum_block_transactions: usize,
    pub base_fee_per_compute: u128,
    pub congestion_increment: u128,
    pub per_scope_block_limit: usize,
    pub kestrel_cast: KestrelCastConfig,
    pub relay_count: usize,
    pub replication_factor: usize,
    pub maximum_inflight_shred_blocks: usize,
    pub commit_poll_interval_ms: u64,
    /// Invalid gossiped transactions or shreds attributed to the same peer
    /// before it is disconnected and blocked. Bans are stored and applied again
    /// after a restart, but are not shared across nodes and never expire.
    pub peer_offense_ban_threshold: u32,
    /// Certified orders this validator may hold undelivered to execution before
    /// it stops and reports failure.
    ///
    /// Deferred execution means ordering legitimately runs a little ahead of
    /// execution, so this is a backlog bound. What it prevents is the unbounded
    /// case: a validator whose execution has stopped would keep accepting
    /// certified orders forever while it still votes and finalizes.
    pub maximum_pending_orders: usize,
    /// How long a validator waits for a certified height's payload to arrive on
    /// its own before asking peers for it.
    pub payload_repair_delay_ms: u64,
    /// The cap on the doubling backoff between repeated asks.
    pub maximum_payload_repair_backoff_ms: u64,
}

impl Default for Stage2PipelineConfig {
    fn default() -> (config: Self)
        ensures
            config == (Stage2PipelineConfig {
                maximum_block_transactions: 4_096,
                base_fee_per_compute: 1,
                congestion_increment: 1,
                per_scope_block_limit: 1_024,
                kestrel_cast: KestrelCastConfig { data_shards: 10, parity_shards: 10 },
                relay_count: 12,
                replication_factor: 2,
                maximum_inflight_shred_blocks: 64,
                commit_poll_interval_ms: 2,
                peer_offense_ban_threshold: 8,
                maximum_pending_orders: 64,
                payload_repair_delay_ms: 500,
                maximum_payload_repair_backoff_ms: 8_000,
            }),
    {
        Stage2PipelineConfig {
            maximum_block_transactions: 4_096,
            base_fee_per_compute: 1,
            congestion_increment: 1,
            per_scope_block_limit: 1_024,
            kestrel_cast: KestrelCastConfig::default(),
            relay_count: 12,
            replication_factor: 2,
            maximum_inflight_shred_blocks: 64,
            commit_poll_interval_ms: 2,
            peer_offense_ban_threshold: 8,
            // Comfortably above the few heights ordering normally leads
            // execution by, and far below the hundreds seen when execution has
            // actually stopped.
            maximum_pending_orders: 64,
            payload_repair_delay_ms: 500,
            maximum_payload_repair_backoff_ms: 8_000,
        }
    }
}

/// Whether the settings can be run.
pub open spec fn valid_settings(config: Stage2PipelineConfig) -> bool {
    &&& config.maximum_block_transactions > 0
    &&& config.relay_count > 0
    &&& config.replication_factor > 0
    &&& config.maximum_inflight_shred_blocks > 0
    &&& config.maximum_pending_orders > 0
    &&& config.payload_repair_delay_ms > 0
    &&& config.commit_poll_interval_ms > 0
}

impl Stage2PipelineConfig {
    /// Whether the settings can be run.
    pub fn is_valid(&self) -> (valid: bool)
        ensures
            valid == valid_settings(*self),
    {
        self.maximum_block_transactions > 0 && self.relay_count > 0 && self.replication_factor > 0
            && self.maximum_inflight_shred_blocks > 0 && self.maximum_pending_orders > 0
            && self.payload_repair_delay_ms > 0 && self.commit_poll_interval_ms > 0
    }
}

/// Observability for the shred and payload path, which decides whether a
/// validator can execute a height it did not propose itself. These counters
/// distinguish a delivery failure from a reconstruction failure.
#[derive(Clone, Copy, Debug, PartialEq, Eq, Structural)]
pub struct ShredStats {
    pub shreds_received: u64,
    pub payloads_reconstructed: u64,
    /// Payloads available to match against a finalized order, whether
    /// reconstructed from shreds or built locally as proposer.
    pub payloads_available: usize,
    /// Blocks holding some shreds but not yet enough to reconstruct.
    pub incomplete_shred_blocks: usize,
}

impl Default for ShredStats {
    fn default() -> (stats: Self)
        ensures
            stats == (ShredStats {
                shreds_received: 0,
                payloads_reconstructed: 0,
                payloads_available: 0,
                incomplete_shred_blocks: 0,
            }),
    {
        ShredStats {
            shreds_received: 0,
            payloads_reconstructed: 0,
            payloads_available: 0,
            incomplete_shred_blocks: 0,
        }
    }
}

/// Failures where transport, order and execution meet.
#[derive(Debug, PartialEq, Eq)]
pub enum PipelineError {
    InvalidConfiguration,
    /// The validator-to-peer topology does not exactly match genesis.
    InvalidPeerTopology,
    /// The sender already has an uncommitted transaction reserved.
    SenderAlreadyReserved(Address),
    NonceMismatch { expected: u64, received: u64 },
    NonceOverflow,
    /// The mempool selected a transaction whose signed envelope is unavailable.
    SelectedTransactionUnavailable,
    /// The height cannot be proposed: transactions have only been retired
    /// through an earlier height than the one before it.
    PreviousHeightNotRetired { height: u64, retired_height: u64 },
    InflightShredLimitReached,
    /// Execution has fallen too far behind ordering.
    ExecutionBacklogExceeded { pending: usize, limit: usize, awaiting_height: u64 },
    /// All inputs closed.
    PipelineClosed,
    LockPoisoned,
    Encoding(String),
    Lifecycle(LifecycleError),
    Mempool(MempoolError),
    Gossip(GossipError),
    KestrelCast(KestrelCastError),
    Storage(String),
}

/// Whether an honest peer cannot have caused a failure by a message of its own.
pub open spec fn blames_peer(error: PipelineError) -> bool {
    &&& error !is NonceMismatch
    &&& error !is SenderAlreadyReserved
    &&& error !is Mempool
    &&& error !is InflightShredLimitReached
    &&& error != PipelineError::Gossip(GossipError::TransactionQueueUnavailable)
    &&& error != PipelineError::Gossip(GossipError::ShredQueueUnavailable)
    &&& error != PipelineError::Gossip(GossipError::BanQueueUnavailable)
    &&& error !is LockPoisoned
    &&& error !is Storage
}

/// Whether a rejected inbound message should count against the peer that sent
/// it. Only failures an honest peer cannot legitimately produce are counted:
/// gossiping a transaction again that has since been committed is normal
/// behaviour, and so is racing two copies of the same sender's transaction, or
/// hitting a full mempool scope or a full queue of this node. Undecodable bytes, a bad signature or an
/// invalid shred still count.
pub fn is_peer_misbehaviour(error: &PipelineError) -> (misbehaviour: bool)
    ensures
        misbehaviour == blames_peer(*error),
{
    match error {
        // Ordinary races between commit and in-flight gossip.
        PipelineError::NonceMismatch { .. } => false,
        PipelineError::SenderAlreadyReserved(_) => false,
        // Local congestion and limits, not the sender's doing.
        PipelineError::Mempool(_) => false,
        PipelineError::InflightShredLimitReached => false,
        PipelineError::Gossip(GossipError::TransactionQueueUnavailable) => false,
        PipelineError::Gossip(GossipError::ShredQueueUnavailable) => false,
        PipelineError::Gossip(GossipError::BanQueueUnavailable) => false,
        // Our own internal faults are never the peer's fault.
        PipelineError::LockPoisoned => false,
        PipelineError::Storage(_) => false,
        _ => true,
    }
}

/// How many invalid messages one peer has sent.
#[derive(Debug)]
pub struct OffenseCount {
    pub peer: PeerBytes,
    pub count: u32,
}

/// The entry at `i` counts the offenses of a peer.
pub open spec fn counts_peer(entries: Seq<OffenseCount>, peer: Seq<u8>, i: int) -> bool {
    0 <= i < entries.len() && entries[i].peer@ == peer
}

/// Offense counts by peer. They start over with each run; bans do not.
#[derive(Debug)]
pub struct OffenseCounts {
    entries: Vec<OffenseCount>,
}

impl View for OffenseCounts {
    type V = Map<Seq<u8>, u32>;

    closed spec fn view(&self) -> Map<Seq<u8>, u32> {
        Map::new(
            |peer: Seq<u8>| exists|i: int| counts_peer(self.entries@, peer, i),
            |peer: Seq<u8>| self.entries@[choose|i: int| counts_peer(self.entries@, peer, i)].count,
        )
    }
}

/// How often a peer has offended.
pub open spec fn offenses_of(counts: Map<Seq<u8>, u32>, peer: Seq<u8>) -> nat {
    if counts.contains_key(peer) {
        counts[peer] as nat
    } else {
        0
    }
}

impl OffenseCounts {
    #[verifier::type_invariant]
    spec fn distinct(self) -> bool {
        forall|i: int, j: int|
            #![trigger self.entries@[i], self.entries@[j]]
            0 <= i < j < self.entries@.len() ==> self.entries@[i].peer@ != self.entries@[j].peer@
    }

    /// No offenses.
    pub fn new() -> (counts: Self)
        ensures
            counts@ == Map::<Seq<u8>, u32>::empty(),
    {
        let counts = OffenseCounts { entries: Vec::new() };
        assert(counts@ =~= Map::<Seq<u8>, u32>::empty());
        counts
    }

    /// Where a peer is counted; past the end where it is not.
    fn position(&self, peer: &[u8]) -> (position: usize)
        ensures
            position <= self.entries@.len(),
            position < self.entries@.len() ==> self.entries@[position as int].peer@ == peer@
                && self@.contains_key(peer@) && self@[peer@]
                == self.entries@[position as int].count,
            position == self.entries@.len() ==> !self@.contains_key(peer@),
    {
        proof {
            use_type_invariant(self);
        }
        let mut index: usize = 0;
        while index < self.entries.len()
            invariant
                index <= self.entries@.len(),
                self.distinct(),
                forall|i: int|
                    0 <= i < index ==> (#[trigger] self.entries@[i]).peer@ != peer@,
            decreases self.entries@.len() - index,
        {
            if same_bytes(&self.entries[index].peer, peer) {
                assert(counts_peer(self.entries@, peer@, index as int));
                return index;
            }
            index += 1;
        }
        index
    }

    /// How often a peer has offended.
    pub fn total(&self, peer: &[u8]) -> (total: u32)
        ensures
            total == offenses_of(self@, peer@),
    {
        let position: usize = self.position(peer);
        if position < self.entries.len() {
            self.entries[position].count
        } else {
            0
        }
    }
}

/// Increments a peer's offense count and returns the new total.
pub fn tally_offense(offense_counts: &mut OffenseCounts, peer: &[u8]) -> (total: u32)
    requires
        offenses_of(old(offense_counts)@, peer@) < u32::MAX,
    ensures
        total == offenses_of(old(offense_counts)@, peer@) + 1,
        final(offense_counts)@ == old(offense_counts)@.insert(peer@, total),
{
    proof {
        use_type_invariant(&*offense_counts);
    }
    let ghost before = offense_counts.entries@;
    let ghost counted = offense_counts@;
    let position: usize = offense_counts.position(peer);
    let mut entries: Vec<OffenseCount> = Vec::new();
    std::mem::swap(&mut entries, &mut offense_counts.entries);
    let total: u32 = if position < entries.len() {
        let total: u32 = entries[position].count + 1;
        let peer = copy_bytes(peer);
        entries.set(position, OffenseCount { peer, count: total });
        total
    } else {
        entries.push(OffenseCount { peer: copy_bytes(peer), count: 1 });
        1
    };
    proof {
        assert forall|i: int, j: int|
            #![trigger entries@[i], entries@[j]]
            0 <= i < j < entries@.len() implies entries@[i].peer@ != entries@[j].peer@ by {
            if position == before.len() && j == position {
                assert(!counts_peer(before, peer@, i));
            }
        }
    }
    offense_counts.entries = entries;
    proof {
        let after = offense_counts.entries@;
        let at = position as int;
        assert forall|other: Seq<u8>, i: int|
            other != peer@ implies counts_peer(before, other, i) == #[trigger] counts_peer(
            after,
            other,
            i,
        ) by {}
        assert(counts_peer(after, peer@, at));
        assert forall|other: Seq<u8>| #[trigger] offense_counts@.contains_key(other) <==> (other
            == peer@ || counted.contains_key(other)) by {
            if counted.contains_key(other) && other != peer@ {
                let i = choose|i: int| counts_peer(before, other, i);
                assert(counts_peer(after, other, i));
            }
        }
        assert forall|other: Seq<u8>| #[trigger]
            offense_counts@.contains_key(other) implies offense_counts@[other] == counted.insert(
            peer@,
            total,
        )[other] by {
            let i = choose|i: int| counts_peer(after, other, i);
            if other == peer@ {
                assert(i == at);
            } else {
                assert(counts_peer(before, other, i));
                let j = choose|j: int| counts_peer(before, other, j);
                assert(i == j);
            }
        }
        assert(offense_counts@ =~= counted.insert(peer@, total));
    }
    total
}

/// Whether an offense that brings a peer to `total` bans it. Equality, so that
/// later offenses of a banned peer request no further ban.
pub fn requests_ban(total: u32, threshold: u32) -> (ban: bool)
    ensures
        ban == (total == threshold),
{
    total == threshold
}

/// The offense counts after a history of offenses, each attributed to a peer.
pub open spec fn counts_after(history: Seq<Seq<u8>>, peer: Seq<u8>) -> nat
    decreases history.len(),
{
    if history.len() == 0 {
        0
    } else {
        counts_after(history.drop_last(), peer) + if history.last() == peer {
            1nat
        } else {
            0nat
        }
    }
}

proof fn lemma_counts_grow(history: Seq<Seq<u8>>, peer: Seq<u8>, i: int)
    requires
        0 <= i <= history.len(),
    ensures
        counts_after(history.take(i), peer) <= counts_after(history, peer),
    decreases history.len() - i,
{
    if i < history.len() {
        lemma_counts_grow(history, peer, i + 1);
        assert(history.take(i + 1).drop_last() =~= history.take(i));
    } else {
        assert(history.take(i) =~= history);
    }
}

/// Whether the offense at `k` of a history requests a ban.
pub open spec fn bans_at(history: Seq<Seq<u8>>, threshold: u32, k: int) -> bool {
    0 <= k < history.len() && counts_after(history.take(k + 1), history[k]) == threshold
}

/// Whether counts are those of a history.
pub open spec fn counts_match(counts: Map<Seq<u8>, u32>, history: Seq<Seq<u8>>) -> bool {
    forall|peer: Seq<u8>| #[trigger] offenses_of(counts, peer) == counts_after(history, peer)
}

/// Tallying an offense counts it for its peer and for no other: counts that match a
/// history match it with the offense added.
pub proof fn law_offenses_count_for_their_peer(
    counts: Map<Seq<u8>, u32>,
    history: Seq<Seq<u8>>,
    offender: Seq<u8>,
    total: u32,
)
    requires
        counts_match(counts, history),
        total == offenses_of(counts, offender) + 1,
    ensures
        counts_match(counts.insert(offender, total), history.push(offender)),
        forall|peer: Seq<u8>| #![trigger counts_after(history.push(offender), peer)]
            peer != offender ==> counts_after(history.push(offender), peer) == counts_after(
                history,
                peer,
            ),
        bans_at(history.push(offender), total, history.len() as int),
{
    let longer = history.push(offender);
    assert(longer.drop_last() =~= history);
    assert(longer.take(history.len() as int + 1) =~= longer);
    assert forall|peer: Seq<u8>| #[trigger]
        offenses_of(counts.insert(offender, total), peer) == counts_after(longer, peer) by {
        assert(offenses_of(counts, peer) == counts_after(history, peer));
        assert(offenses_of(counts, offender) == counts_after(history, offender));
    }
}

/// A ban of a peer comes with the offense that brings its own offenses to the
/// threshold, with none before it and with none after it.
pub proof fn law_ban_is_requested_once(history: Seq<Seq<u8>>, peer: Seq<u8>, threshold: u32)
    requires
        threshold > 0,
    ensures
        counts_after(history, peer) < threshold ==> forall|k: int| #[trigger]
            bans_at(history, threshold, k) ==> history[k] != peer,
        counts_after(history, peer) >= threshold ==> exists|k: int| #[trigger]
            bans_at(history, threshold, k) && history[k] == peer,
        forall|i: int, j: int| #[trigger]
            bans_at(history, threshold, i) && #[trigger] bans_at(history, threshold, j)
                && history[i] == peer && history[j] == peer ==> i == j,
    decreases history.len(),
{
    assert forall|k: int| #[trigger]
        bans_at(history, threshold, k) && history[k] == peer implies counts_after(history, peer)
        >= threshold by {
        lemma_counts_grow(history, peer, k + 1);
    }
    assert forall|i: int, j: int| #[trigger]
        bans_at(history, threshold, i) && #[trigger] bans_at(history, threshold, j) && history[i]
            == peer && history[j] == peer implies i == j by {
        if i < j {
            lemma_later_offense_counts_more(history, peer, i, j);
        } else if j < i {
            lemma_later_offense_counts_more(history, peer, j, i);
        }
    }
    if counts_after(history, peer) >= threshold {
        let shorter = history.drop_last();
        if counts_after(shorter, peer) >= threshold {
            law_ban_is_requested_once(shorter, peer, threshold);
            let k = choose|k: int| #[trigger] bans_at(shorter, threshold, k) && shorter[k] == peer;
            assert(shorter.take(k + 1) =~= history.take(k + 1));
            assert(bans_at(history, threshold, k) && history[k] == peer);
        } else {
            let k = history.len() - 1;
            assert(history.take(k + 1) =~= history);
            assert(bans_at(history, threshold, k) && history[k] == peer);
        }
    }
}

/// A later offense of the same peer finds a higher count.
proof fn lemma_later_offense_counts_more(history: Seq<Seq<u8>>, peer: Seq<u8>, i: int, j: int)
    requires
        0 <= i < j < history.len(),
        history[j] == peer,
    ensures
        counts_after(history.take(j + 1), peer) > counts_after(history.take(i + 1), peer),
{
    let later = history.take(j + 1);
    assert(later.drop_last() =~= history.take(j));
    lemma_counts_grow(history.take(j), peer, i + 1);
    assert(history.take(j).take(i + 1) =~= history.take(i + 1));
}

/// Under which key the admission of a transaction is stored.
pub open spec fn admission_record(id: Hash256) -> Seq<u8> {
    text_bytes("pipeline/admission/pending/") + id@
}

/// Under which key the admission of a transaction is stored, until the
/// transaction is submitted.
pub fn admission_key(id: Hash256) -> (key: Vec<u8>)
    ensures
        key@ == admission_record(id),
{
    let mut key: Vec<u8> = Vec::new();
    append_text(&mut key, "pipeline/admission/pending/");
    append(&mut key, &id.bytes);
    assert(key@ =~= admission_record(id));
    key
}

/// Under which key the ban of a peer is stored.
pub open spec fn ban_record(peer: Seq<u8>) -> Seq<u8> {
    text_bytes("pipeline/ban/v1/") + peer
}

/// Under which key the ban of a peer is stored. The value is empty; that the key
/// is there is the ban.
pub fn ban_key(peer: &[u8]) -> (key: Vec<u8>)
    ensures
        key@ == ban_record(peer@),
{
    let mut key: Vec<u8> = Vec::new();
    append_text(&mut key, "pipeline/ban/v1/");
    append(&mut key, peer);
    assert(key@ =~= ban_record(peer@));
    key
}

/// Whether bytes identify a peer.
pub uninterp spec fn is_peer_identity(bytes: Seq<u8>) -> bool;

/// Calls `libp2p::PeerId::from_bytes` and reports whether it took the bytes.
/// Claimed: whether it does depends on the bytes alone.
#[verifier::external_body]
fn identifies_peer(bytes: &[u8]) -> (valid: bool)
    ensures
        valid == is_peer_identity(bytes@),
{
    PeerId::from_bytes(bytes).is_ok()
}

/// The ban that a stored key stands for: the peer behind the prefix, where that
/// is one.
pub open spec fn ban_of(key: Seq<u8>) -> Option<Seq<u8>> {
    let prefix = text_bytes("pipeline/ban/v1/");
    if prefix.is_prefix_of(key) && is_peer_identity(key.skip(prefix.len() as int)) {
        Some(key.skip(prefix.len() as int))
    } else {
        None
    }
}

/// The peer whose ban is stored under a key.
pub fn banned_peer(key: &[u8]) -> (peer: Option<PeerBytes>)
    ensures
        match peer {
            Some(peer) => ban_of(key@) == Some(peer@),
            None => ban_of(key@) is None,
        },
{
    let mut prefix: Vec<u8> = Vec::new();
    append_text(&mut prefix, "pipeline/ban/v1/");
    assert(prefix@ =~= text_bytes("pipeline/ban/v1/"));
    if key.len() < prefix.len() {
        return None;
    }
    let head = vstd::slice::slice_subrange(key, 0, prefix.len());
    if !same_bytes(head, &prefix) {
        proof {
            if prefix@.is_prefix_of(key@) {
                assert(head@ =~= prefix@);
            }
        }
        return None;
    }
    assert(prefix@.is_prefix_of(key@));
    let tail = vstd::slice::slice_subrange(key, prefix.len(), key.len());
    assert(tail@ =~= key@.skip(prefix@.len() as int));
    if identifies_peer(tail) {
        Some(copy_bytes(tail))
    } else {
        None
    }
}

/// What the stored keys of bans stand for.
#[derive(Debug)]
pub struct PersistedBans {
    /// The banned peers.
    pub peers: Vec<PeerBytes>,
    /// The positions of keys that stand for no peer, to be deleted.
    pub corrupt: Vec<usize>,
}

/// The peers that stored keys ban, in the order of the keys.
pub open spec fn bans_of(keys: Seq<Seq<u8>>) -> Seq<Seq<u8>>
    decreases keys.len(),
{
    if keys.len() == 0 {
        Seq::empty()
    } else {
        match ban_of(keys.last()) {
            Some(peer) => bans_of(keys.drop_last()).push(peer),
            None => bans_of(keys.drop_last()),
        }
    }
}

/// The positions of stored keys that ban no peer.
pub open spec fn corrupt_positions(keys: Seq<Seq<u8>>) -> Seq<int>
    decreases keys.len(),
{
    if keys.len() == 0 {
        Seq::empty()
    } else if ban_of(keys.last()) is None {
        corrupt_positions(keys.drop_last()).push(keys.len() - 1)
    } else {
        corrupt_positions(keys.drop_last())
    }
}

/// Reads back every stored ban, naming for deletion each key that does not stand
/// for a peer, so that a corrupt record can never wedge startup.
pub fn persisted_bans(keys: &[Vec<u8>]) -> (bans: PersistedBans)
    ensures
        crate::crypto::byte_strings(bans.peers@) == bans_of(crate::crypto::byte_strings(keys@)),
        bans.corrupt@.map_values(|position: usize| position as int) == corrupt_positions(
            crate::crypto::byte_strings(keys@),
        ),
{
    let ghost all = crate::crypto::byte_strings(keys@);
    let mut peers: Vec<PeerBytes> = Vec::new();
    let mut corrupt: Vec<usize> = Vec::new();
    let mut index: usize = 0;
    proof {
        assert(all.take(0) =~= Seq::<Seq<u8>>::empty());
        assert(crate::crypto::byte_strings(peers@) =~= Seq::<Seq<u8>>::empty());
        assert(corrupt@.map_values(|position: usize| position as int) =~= Seq::<int>::empty());
    }
    while index < keys.len()
        invariant
            index <= keys@.len(),
            all == crate::crypto::byte_strings(keys@),
            crate::crypto::byte_strings(peers@) == bans_of(all.take(index as int)),
            corrupt@.map_values(|position: usize| position as int) == corrupt_positions(
                all.take(index as int),
            ),
        decreases keys@.len() - index,
    {
        let ghost kept = peers@;
        let ghost dropped = corrupt@;
        proof {
            let next = all.take(index + 1);
            assert(next.drop_last() =~= all.take(index as int));
            assert(next.last() == keys@[index as int]@);
        }
        match banned_peer(&keys[index]) {
            Some(peer) => {
                peers.push(peer);
                assert(crate::crypto::byte_strings(peers@) =~= crate::crypto::byte_strings(
                    kept,
                ).push(peer@));
            },
            None => {
                corrupt.push(index);
                assert(corrupt@.map_values(|position: usize| position as int)
                    =~= dropped.map_values(|position: usize| position as int).push(index as int));
            },
        }
        index += 1;
    }
    assert(all.take(index as int) =~= all);
    PersistedBans { peers, corrupt }
}

/// A stored ban is read back: the key under which the ban of a peer is stored
/// stands for that peer.
pub proof fn law_stored_ban_is_read_back(peer: Seq<u8>)
    requires
        is_peer_identity(peer),
    ensures
        ban_of(ban_record(peer)) == Some(peer),
{
    let prefix = text_bytes("pipeline/ban/v1/");
    let key = ban_record(peer);
    assert(key.skip(prefix.len() as int) =~= peer);
    assert(prefix.is_prefix_of(key));
}

/// Identifies a candidate payload: its height, and what tells it from other
/// candidates of that height.
#[derive(Clone, Copy, Debug, PartialEq, Eq, PartialOrd, Ord)]
pub struct PayloadSlot {
    pub height: u64,
    pub discriminator: Hash256,
}

impl SortKey for PayloadSlot {
    open spec fn precedes(self, other: Self) -> bool {
        self.height < other.height || (self.height == other.height
            && self.discriminator.precedes(other.discriminator))
    }

    proof fn precedes_irreflexive(x: Self) {
        Hash256::precedes_irreflexive(x.discriminator);
    }

    proof fn precedes_transitive(x: Self, y: Self, z: Self) {
        if x.height == y.height && y.height == z.height {
            Hash256::precedes_transitive(x.discriminator, y.discriminator, z.discriminator);
        }
    }

    proof fn precedes_total(x: Self, y: Self) {
        if x.height == y.height {
            Hash256::precedes_total(x.discriminator, y.discriminator);
        }
    }

    fn is_before(&self, other: &Self) -> (before: bool) {
        self.height < other.height || (self.height == other.height
            && self.discriminator.is_before(&other.discriminator))
    }
}

/// The shreds that have arrived of each block, by index.
pub type ShredGroups = OrderedMap<Hash256, OrderedMap<u16, Shred>>;

/// Whether `id` is the group that was last updated longest ago, `incoming`
/// aside; of several, the one with the lowest identifier.
pub open spec fn is_stalest(arrivals: Map<Hash256, u64>, incoming: Hash256, id: Hash256) -> bool {
    &&& arrivals.contains_key(id)
    &&& id != incoming
    &&& forall|other: Hash256| #[trigger]
        arrivals.contains_key(other) && other != incoming && other != id ==> arrivals[id]
            < arrivals[other] || (arrivals[id] == arrivals[other] && id.precedes(other))
}

/// Makes room for shreds belonging to `incoming` when the in-flight buffer is
/// full, by dropping the group that was last updated longest ago.
///
/// A group is otherwise only removed once it completes, and plenty never do: a
/// validator receives shreds for blocks it does not need and partial sets it can
/// never finish. Evicting the stalest group keeps the memory bound while the
/// newest block, which execution is most likely waiting on, can still complete.
///
/// Returns whether room is now available for `incoming`.
pub fn evict_stale_shred_group(
    shreds: &mut ShredGroups,
    arrivals: &mut OrderedMap<Hash256, u64>,
    capacity: usize,
    incoming: Hash256,
) -> (room: bool)
    ensures
        if old(shreds)@.contains_key(incoming) || old(shreds)@.dom().len() < capacity {
            room && final(shreds)@ == old(shreds)@ && final(arrivals)@ == old(arrivals)@
        } else if room {
            exists|id: Hash256| #[trigger]
                is_stalest(old(arrivals)@, incoming, id) && final(shreds)@ == old(shreds)@.remove(id)
                    && final(arrivals)@ == old(arrivals)@.remove(id)
        } else {
            &&& final(shreds)@ == old(shreds)@
            &&& final(arrivals)@ == old(arrivals)@
            &&& forall|id: Hash256| #[trigger] old(arrivals)@.contains_key(id) ==> id == incoming
        },
{
    if shreds.contains_key(&incoming) || shreds.len() < capacity {
        return true;
    }
    let ghost known = arrivals@;
    let ids = arrivals.keys();
    let mut stalest: Option<(Hash256, u64)> = None;
    let mut index: usize = 0;
    while index < ids.len()
        invariant
            index <= ids@.len(),
            known == arrivals@,
            arrivals@ == old(arrivals)@,
            crate::ordered::strictly_sorted(ids@),
            forall|id: Hash256| ids@.contains(id) <==> known.contains_key(id),
            match stalest {
                None => forall|i: int| 0 <= i < index ==> #[trigger] ids@[i] == incoming,
                Some((id, arrival)) => {
                    &&& known.contains_key(id)
                    &&& known[id] == arrival
                    &&& id != incoming
                    &&& forall|i: int|
                        0 <= i < index && #[trigger] ids@[i] != incoming && ids@[i] != id
                            ==> arrival < known[ids@[i]] || (arrival == known[ids@[i]]
                            && id.precedes(ids@[i]))
                    &&& exists|k: int| 0 <= k < index && #[trigger] ids@[k] == id
                },
            },
        decreases ids@.len() - index,
    {
        let id = ids[index];
        assert(ids@.contains(id));
        if id != incoming {
            if let Some(arrival) = arrivals.get(&id) {
                let arrival: u64 = *arrival;
                let replace: bool = match stalest {
                    None => true,
                    Some((_, least)) => arrival < least,
                };
                if replace {
                    stalest = Some((id, arrival));
                }
            }
        }
        index += 1;
    }
    match stalest {
        Some((id, _)) => {
            proof {
                assert forall|other: Hash256| #[trigger]
                    known.contains_key(other) && other != incoming && other != id implies known[id]
                    < known[other] || (known[id] == known[other] && id.precedes(other)) by {
                    assert(ids@.contains(other));
                    let i = choose|i: int| 0 <= i < ids@.len() && ids@[i] == other;
                    assert(ids@[i] == other);
                }
                assert(is_stalest(old(arrivals)@, incoming, id));
            }
            shreds.remove(&id);
            arrivals.remove(&id);
            true
        },
        None => {
            proof {
                assert forall|id: Hash256| #[trigger] known.contains_key(id) implies id
                    == incoming by {
                    assert(ids@.contains(id));
                    let i = choose|i: int| 0 <= i < ids@.len() && ids@[i] == id;
                    assert(ids@[i] == incoming);
                }
            }
            false
        },
    }
}

} // verus!
