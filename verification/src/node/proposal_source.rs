//! What a validator holds between admission and execution: admitted
//! transactions, candidate payloads and the shreds they are rebuilt from.

use vstd::prelude::*;

use crate::execution::transactions::DeclaredObjectRef;
use crate::mempool::errors::MempoolError;
use crate::mempool::market::{
    block_of, fits_at, in_scope, partitioned, queue_of, queues_without, submit_result,
    with_pending, FeeQuote, FeeScope,
    LocalizedMempool, MarketModel, PendingTransaction, PriorityFeePolicy, SubmittedTransaction,
};
use crate::consensus::proposals::{fee_commitment_of, FinalizedOrder};
use crate::network::kestrel_cast::{shred_models, Shred, ShredModel};
use crate::node::lifecycle::{
    carried_payload, same_ids, validation_refusal, LifecycleError, PayloadDecoding, PayloadModel,
    SchemesModel, TransactionValidator,
};
use crate::node::payload::{
    all_encodable, block_encoding, encodable, encodable_block, encode_transaction, ids_of,
    rebuilt_as, transaction_decoding, transaction_encoding, transaction_id, transaction_models, BlockModel,
    PropagatedBlock,
};
use crate::node::pipeline::{
    evict_stale_shred_group, is_stalest, PayloadSlot, PipelineError, ShredGroups, ShredStats,
    Stage2PipelineConfig,
};
use crate::ordered::{sorted_keys, OrderedMap, OrderedSet, SortKey};
use crate::types::{hash_of, Address, Hash256, ObjectId, Transaction, TransactionModel};

verus! {

/// Executed heights whose payloads stay available to answer repair requests.
pub const RETAINED_PAYLOADS_FOR_REPAIR: usize = 64;

/// What the pipeline holds.
pub struct PipelineState {
    /// How many incomplete blocks are held at most.
    capacity: usize,
    mempool: LocalizedMempool<PriorityFeePolicy>,
    transactions: OrderedMap<Hash256, Transaction>,
    reserved_senders: OrderedMap<Address, Hash256>,
    next_nonces: OrderedMap<Address, u64>,
    arrival_sequence: u64,
    /// Candidate payloads for heights not yet submitted: this validator's own
    /// proposals use the parent as discriminator, so that proposing the same
    /// height and parent again is deterministic, while payloads rebuilt from
    /// shreds use their own identity, so that competing proposals for one height
    /// each keep a slot.
    payloads: OrderedMap<PayloadSlot, PropagatedBlock>,
    shreds: ShredGroups,
    propagated: OrderedSet<PayloadSlot>,
    /// The last height for which transactions have been retired. A new proposal
    /// may not be built for any height beyond the next: the height of consensus
    /// advances the instant a certificate forms, so a validator that never led
    /// an earlier height could otherwise select an already certified transaction
    /// again.
    retired_height: u64,
    shreds_received: u64,
    payloads_reconstructed: u64,
    /// When each incomplete block was last updated, in order of arrival.
    shred_arrivals: OrderedMap<Hash256, u64>,
    shred_sequence: u64,
    /// Payloads of submitted heights, kept to answer repair requests.
    recent_payloads: OrderedMap<u64, PropagatedBlock>,
}

/// The value of what the pipeline holds.
#[verifier::ext_equal]
pub struct PipelineModel {
    pub capacity: usize,
    pub market: MarketModel<PriorityFeePolicy>,
    pub transactions: Map<Hash256, TransactionModel>,
    pub reserved_senders: Map<Address, Hash256>,
    pub next_nonces: Map<Address, u64>,
    pub arrival_sequence: u64,
    pub payloads: Map<PayloadSlot, BlockModel>,
    pub shreds: Map<Hash256, Map<u16, ShredModel>>,
    pub propagated: Set<PayloadSlot>,
    pub retired_height: u64,
    pub shreds_received: u64,
    pub payloads_reconstructed: u64,
    pub shred_arrivals: Map<Hash256, u64>,
    pub shred_sequence: u64,
    pub recent_payloads: Map<u64, BlockModel>,
}

/// The values of the shreds of one block.
pub open spec fn group_value(group: OrderedMap<u16, Shred>) -> Map<u16, ShredModel> {
    group@.map_values(|shred: Shred| shred@)
}

/// The values of the shreds of all blocks.
pub open spec fn group_values(groups: Map<Hash256, OrderedMap<u16, Shred>>) -> Map<
    Hash256,
    Map<u16, ShredModel>,
> {
    groups.map_values(|group: OrderedMap<u16, Shred>| group_value(group))
}

/// The values of payloads.
pub open spec fn block_values<K>(blocks: Map<K, PropagatedBlock>) -> Map<K, BlockModel> {
    blocks.map_values(|block: PropagatedBlock| block@)
}

impl View for PipelineState {
    type V = PipelineModel;

    closed spec fn view(&self) -> PipelineModel {
        PipelineModel {
            capacity: self.capacity,
            market: self.mempool@,
            transactions: self.transactions@.map_values(|one: Transaction| one@),
            reserved_senders: self.reserved_senders@,
            next_nonces: self.next_nonces@,
            arrival_sequence: self.arrival_sequence,
            payloads: block_values(self.payloads@),
            shreds: group_values(self.shreds@),
            propagated: self.propagated@,
            retired_height: self.retired_height,
            shreds_received: self.shreds_received,
            payloads_reconstructed: self.payloads_reconstructed,
            shred_arrivals: self.shred_arrivals@,
            shred_sequence: self.shred_sequence,
            recent_payloads: block_values(self.recent_payloads@),
        }
    }
}

/// Every stored transaction holds the reservation of its sender.
pub open spec fn reservations_held(
    transactions: Map<Hash256, TransactionModel>,
    reserved_senders: Map<Address, Hash256>,
) -> bool {
    forall|id: Hash256| #[trigger]
        transactions.contains_key(id) ==> reserved_senders.contains_key(transactions[id].sender)
            && reserved_senders[transactions[id].sender] == id
}

/// What holds of the pipeline at all times: stored transactions hold their
/// senders' reservations, each incomplete block has an arrival, there are at
/// most as many of them as fit, and few payloads are kept for repair.
pub open spec fn sound_pipeline(state: PipelineModel) -> bool {
    &&& reservations_held(state.transactions, state.reserved_senders)
    &&& state.shreds.dom() == state.shred_arrivals.dom()
    &&& state.shreds.dom().finite()
    &&& state.shreds.dom().len() <= state.capacity
    &&& state.recent_payloads.dom().finite()
    &&& state.recent_payloads.dom().len() <= RETAINED_PAYLOADS_FOR_REPAIR
}

/// The pipeline before anything has arrived.
pub open spec fn fresh_pipeline(
    config: Stage2PipelineConfig,
    next_nonces: Map<Address, u64>,
    retired_height: u64,
) -> PipelineModel {
    PipelineModel {
        capacity: config.maximum_inflight_shred_blocks,
        market: MarketModel {
            base_fee: config.base_fee_per_compute,
            increment: config.congestion_increment,
            limit: config.per_scope_block_limit,
            queues: Map::empty(),
            policies: Map::empty(),
            ids: Set::empty(),
        },
        transactions: Map::empty(),
        reserved_senders: Map::empty(),
        next_nonces,
        arrival_sequence: 0,
        payloads: Map::empty(),
        shreds: Map::empty(),
        propagated: Set::empty(),
        retired_height,
        shreds_received: 0,
        payloads_reconstructed: 0,
        shred_arrivals: Map::empty(),
        shred_sequence: 0,
        recent_payloads: Map::empty(),
    }
}

/// The next number, or the same where there is none.
pub open spec fn next_count(count: u64) -> u64 {
    if count < u64::MAX {
        (count + 1) as u64
    } else {
        count
    }
}

/// An admission that has passed every check but the market's, to be stored
/// before it is completed.
#[derive(Debug)]
pub struct Admission {
    pub id: Hash256,
    pub transaction: Transaction,
    pub submitted: SubmittedTransaction,
    /// The encoded transaction, to be stored under the admission key.
    pub encoded: Vec<u8>,
}

/// What is to be done for a transaction that may be admitted.
#[derive(Debug)]
pub enum AdmissionStep {
    /// The transaction is already admitted.
    Known(Hash256),
    /// Store the admission, then complete it.
    Store(Admission),
}

/// The objects that references name.
pub open spec fn referenced_ids(references: Seq<DeclaredObjectRef>) -> Seq<ObjectId> {
    references.map_values(|reference: DeclaredObjectRef| reference.id)
}

/// Where congestion is charged: to the lowest of the touched objects, or to the
/// sender where none is touched.
pub open spec fn scope_of(touched: Set<ObjectId>, sender: Address) -> FeeScope {
    if touched == Set::<ObjectId>::empty() {
        FeeScope::Account(sender)
    } else {
        FeeScope::Object(sorted_keys(touched)[0])
    }
}

/// A submission states what a transaction with the given payload asks for.
pub open spec fn submits(
    submitted: SubmittedTransaction,
    transaction: TransactionModel,
    payload: PayloadModel,
    arrival_sequence: u64,
) -> bool {
    &&& submitted.id == transaction_id(transaction)
    &&& submitted.sender == transaction.sender
    &&& submitted.touched_objects@ == referenced_ids(
        payload.executable.object_references@,
    ).to_set()
    &&& submitted.scope == scope_of(submitted.touched_objects@, transaction.sender)
    &&& submitted.compute_limit == payload.executable.compute_limit
    &&& submitted.max_fee_per_compute == payload.max_fee_per_compute
    &&& submitted.priority_fee_per_compute == payload.priority_fee_per_compute
    &&& submitted.arrival_sequence == arrival_sequence
    &&& submitted.policy_data@ == payload.policy_data
}

/// The nonce that a sender must use next.
pub open spec fn expected_nonce(next_nonces: Map<Address, u64>, sender: Address) -> u64 {
    if next_nonces.contains_key(sender) {
        next_nonces[sender]
    } else {
        0
    }
}

/// What admitting a transaction comes to.
pub open spec fn admission_step(
    state: PipelineModel,
    schemes: SchemesModel,
    transaction: TransactionModel,
    decoding: PayloadDecoding,
    result: Result<AdmissionStep, PipelineError>,
) -> bool {
    let id = transaction_id(transaction);
    let expected = expected_nonce(state.next_nonces, transaction.sender);
    match validation_refusal(schemes, transaction, decoding) {
        Some(refused) => result == Err::<AdmissionStep, PipelineError>(
            PipelineError::Lifecycle(refused),
        ),
        None => if !encodable(transaction) {
            result matches Err(PipelineError::Lifecycle(LifecycleError::Encoding(_)))
        } else if state.transactions.contains_key(id) {
            result == Ok::<AdmissionStep, PipelineError>(AdmissionStep::Known(id))
        } else if transaction.nonce != expected {
            result == Err::<AdmissionStep, PipelineError>(
                PipelineError::NonceMismatch { expected, received: transaction.nonce },
            )
        } else if state.reserved_senders.contains_key(transaction.sender) {
            result == Err::<AdmissionStep, PipelineError>(
                PipelineError::SenderAlreadyReserved(transaction.sender),
            )
        } else {
            &&& result matches Ok(AdmissionStep::Store(admission))
            &&& admission.id == id
            &&& admission.transaction@ == transaction
            &&& admission.encoded@ == transaction_encoding(transaction)
            &&& transaction_decoding(admission.encoded@) == Some(transaction)
            &&& submits(
                admission.submitted,
                transaction,
                carried_payload(decoding)->Ok_0,
                state.arrival_sequence,
            )
        },
    }
}

/// Whether an admission still fits the state it was prepared for.
pub open spec fn fits_state(state: PipelineModel, admission: Admission) -> bool {
    &&& !state.transactions.contains_key(admission.id)
    &&& !state.reserved_senders.contains_key(admission.transaction@.sender)
}

/// The pipeline after the market took a transaction, apart from the market.
pub open spec fn admitted(state: PipelineModel, admission: Admission) -> PipelineModel {
    PipelineModel {
        transactions: state.transactions.insert(admission.id, admission.transaction@),
        reserved_senders: state.reserved_senders.insert(
            admission.transaction@.sender,
            admission.id,
        ),
        arrival_sequence: next_count(state.arrival_sequence),
        ..state
    }
}

/// The market after it took a transaction at the quoted price, somewhere in the
/// queue of its scope, at a place that fits the order of the queue.
pub open spec fn market_took(
    before: MarketModel<PriorityFeePolicy>,
    after: MarketModel<PriorityFeePolicy>,
    submitted: SubmittedTransaction,
    quote: FeeQuote,
) -> bool {
    let pending = PendingTransaction {
        transaction: submitted,
        local_base_fee_per_compute: quote.local_base_fee_per_compute,
    };
    exists|position: int|
        {
            let queue = queue_of(before.queues, submitted.scope);
            &&& 0 <= position <= queue.len()
            &&& after == #[trigger] with_pending(before, pending, position)
            &&& partitioned(before.policies, submitted.scope, queue, pending) ==> fits_at(
                before.policies,
                submitted.scope,
                queue,
                pending,
                position,
            )
        }
}

/// The pipeline without a transaction.
pub open spec fn rolled_back(state: PipelineModel, id: Hash256) -> PipelineModel {
    PipelineModel {
        market: MarketModel {
            queues: queues_without(state.market.queues, set![id]),
            ids: state.market.ids.difference(set![id]),
            ..state.market
        },
        transactions: state.transactions.remove(id),
        reserved_senders: if state.transactions.contains_key(id) {
            state.reserved_senders.remove(state.transactions[id].sender)
        } else {
            state.reserved_senders
        },
        ..state
    }
}

/// The transactions that a selection names are all stored.
pub open spec fn all_stored(
    picked: Seq<PendingTransaction>,
    transactions: Map<Hash256, TransactionModel>,
) -> bool {
    forall|i: int|
        0 <= i < picked.len() ==> transactions.contains_key((#[trigger] picked[i]).transaction.id)
}

/// The payload of a selection: the stored transactions with the base fees that
/// were fixed when they were admitted.
pub open spec fn selected_block(
    height: u64,
    parent_id: Hash256,
    picked: Seq<PendingTransaction>,
    transactions: Map<Hash256, TransactionModel>,
) -> BlockModel {
    BlockModel {
        height,
        parent_id,
        transactions: Seq::new(picked.len(), |i: int| transactions[picked[i].transaction.id]),
        base_fees: Seq::new(picked.len(), |i: int| picked[i].local_base_fee_per_compute),
    }
}

/// The market after it gave a selection away: what was picked has left the
/// front of its queue.
pub open spec fn market_gave(
    before: MarketModel<PriorityFeePolicy>,
    after: MarketModel<PriorityFeePolicy>,
    picked: Seq<PendingTransaction>,
) -> bool {
    &&& after == (MarketModel {
        queues: after.queues,
        ids: before.ids.difference(crate::mempool::market::ids_of(picked).to_set()),
        ..before
    })
    &&& forall|scope: FeeScope|
        queue_of(before.queues, scope) == picked.filter(in_scope(scope)) + #[trigger] queue_of(
            after.queues,
            scope,
        )
}

/// What asking for the payload of a height and parent comes to.
pub open spec fn payload_asked(
    before: PipelineModel,
    after: PipelineModel,
    height: u64,
    parent_id: Hash256,
    maximum: usize,
    result: Result<PropagatedBlock, PipelineError>,
) -> bool {
    let slot = PayloadSlot { height, discriminator: parent_id };
    let picked = block_of(before.market.queues, before.market.limit as nat, maximum as nat);
    let block = selected_block(height, parent_id, picked, before.transactions);
    if before.payloads.contains_key(slot) {
        (result matches Ok(payload) && payload@ == before.payloads[slot]) && after == before
    } else if height > next_count(before.retired_height) {
        &&& result == Err::<PropagatedBlock, PipelineError>(
            PipelineError::PreviousHeightNotRetired {
                height,
                retired_height: before.retired_height,
            },
        )
        &&& after == before
    } else if !all_stored(picked, before.transactions) {
        &&& result == Err::<PropagatedBlock, PipelineError>(
            PipelineError::SelectedTransactionUnavailable,
        )
        &&& after == (PipelineModel { market: after.market, ..before })
        &&& market_gave(before.market, after.market, picked)
    } else {
        &&& result matches Ok(payload) && payload@ == block
        &&& after == (PipelineModel {
            market: after.market,
            payloads: before.payloads.insert(slot, block),
            ..before
        })
        &&& market_gave(before.market, after.market, picked)
    }
}

/// The group that makes way for `incoming`, where the buffer is full.
pub open spec fn stalest(arrivals: Map<Hash256, u64>, incoming: Hash256) -> Hash256 {
    choose|id: Hash256| is_stalest(arrivals, incoming, id)
}

/// The pipeline with room for the shreds of `incoming`.
pub open spec fn with_room(state: PipelineModel, incoming: Hash256) -> PipelineModel {
    if state.shreds.contains_key(incoming) || state.shreds.dom().len() < state.capacity {
        state
    } else {
        let evicted = stalest(state.shred_arrivals, incoming);
        PipelineModel {
            shreds: state.shreds.remove(evicted),
            shred_arrivals: state.shred_arrivals.remove(evicted),
            ..state
        }
    }
}

/// The shreds of one block, once another has arrived: the first of an index stays.
pub open spec fn group_with(
    groups: Map<Hash256, Map<u16, ShredModel>>,
    shred: ShredModel,
) -> Map<u16, ShredModel> {
    let group = if groups.contains_key(shred.block_id) {
        groups[shred.block_id]
    } else {
        Map::empty()
    };
    if group.contains_key(shred.index) {
        group
    } else {
        group.insert(shred.index, shred)
    }
}

/// The pipeline after a shred was received.
pub open spec fn received(state: PipelineModel, shred: ShredModel) -> PipelineModel {
    let ready = with_room(state, shred.block_id);
    PipelineModel {
        shreds_received: next_count(state.shreds_received),
        shred_sequence: next_count(state.shred_sequence),
        shred_arrivals: ready.shred_arrivals.insert(
            shred.block_id,
            next_count(state.shred_sequence),
        ),
        shreds: ready.shreds.insert(shred.block_id, group_with(ready.shreds, shred)),
        ..ready
    }
}

/// Whether a shred finds no room: nothing may be held at all.
pub open spec fn no_room(state: PipelineModel) -> bool {
    state.capacity == 0
}

/// The shreds of a group, by ascending index.
pub open spec fn shreds_in(group: Map<u16, ShredModel>) -> Seq<ShredModel> {
    sorted_keys(group.dom()).map_values(|index: u16| group[index])
}

/// What a group of shreds comes to: nothing yet, while there are fewer than the
/// arrived shred asks for, or what they rebuild to.
pub open spec fn group_result(
    group: Map<u16, ShredModel>,
    data_shards: u16,
    result: Result<Option<PropagatedBlock>, PipelineError>,
) -> bool {
    if group.dom().len() < data_shards {
        result == Ok::<Option<PropagatedBlock>, PipelineError>(None)
    } else {
        match result {
            Ok(Some(block)) => rebuilt_as(shreds_in(group), Ok(block)),
            Ok(None) => false,
            Err(PipelineError::Lifecycle(error)) => rebuilt_as(shreds_in(group), Err(error)),
            Err(_) => false,
        }
    }
}

/// Whether a transaction is valid by itself.
pub open spec fn is_valid(
    schemes: SchemesModel,
    transaction: TransactionModel,
    decoding: PayloadDecoding,
) -> bool {
    validation_refusal(schemes, transaction, decoding) is None && encodable(transaction)
}

/// The transaction at `i` is the first invalid one, and `error` says why.
pub open spec fn first_invalid(
    schemes: SchemesModel,
    payload: BlockModel,
    decodings: Seq<PayloadDecoding>,
    error: PipelineError,
    i: int,
) -> bool {
    &&& 0 <= i < payload.transactions.len()
    &&& forall|j: int|
        0 <= j < i ==> is_valid(schemes, #[trigger] payload.transactions[j], decodings[j])
    &&& !is_valid(schemes, payload.transactions[i], decodings[i])
    &&& match validation_refusal(schemes, payload.transactions[i], decodings[i]) {
        Some(refused) => error == PipelineError::Lifecycle(refused),
        None => error matches PipelineError::Lifecycle(LifecycleError::Encoding(_)),
    }
}

/// Why a rebuilt payload is refused: by its first invalid transaction, or by its
/// size.
pub open spec fn payload_refused(
    schemes: SchemesModel,
    payload: BlockModel,
    decodings: Seq<PayloadDecoding>,
    error: PipelineError,
) -> bool {
    ||| exists|i: int| #[trigger] first_invalid(schemes, payload, decodings, error, i)
    ||| {
        &&& all_valid(schemes, payload, decodings)
        &&& !encodable_block(payload)
        &&& error matches PipelineError::Lifecycle(LifecycleError::Encoding(_))
    }
}

/// All transactions of a payload are valid by themselves.
pub open spec fn all_valid(
    schemes: SchemesModel,
    payload: BlockModel,
    decodings: Seq<PayloadDecoding>,
) -> bool {
    forall|i: int|
        0 <= i < payload.transactions.len() ==> is_valid(
            schemes,
            #[trigger] payload.transactions[i],
            decodings[i],
        )
}

/// The pipeline after the payload of a block was rebuilt. A candidate that is
/// there already stays.
pub open spec fn rebuilt(state: PipelineModel, block_id: Hash256, payload: BlockModel) -> PipelineModel {
    let slot = PayloadSlot {
        height: payload.height,
        discriminator: hash_of(block_encoding(payload)),
    };
    PipelineModel {
        payloads_reconstructed: next_count(state.payloads_reconstructed),
        payloads: if state.payloads.contains_key(slot) {
            state.payloads
        } else {
            state.payloads.insert(slot, payload)
        },
        shreds: state.shreds.remove(block_id),
        shred_arrivals: state.shred_arrivals.remove(block_id),
        ..state
    }
}

/// The first wanted slot of a list.
pub open spec fn first_slot(
    slots: Seq<PayloadSlot>,
    wanted: spec_fn(PayloadSlot) -> bool,
) -> Option<PayloadSlot>
    decreases slots.len(),
{
    if slots.len() == 0 {
        None
    } else if wanted(slots[0]) {
        Some(slots[0])
    } else {
        first_slot(slots.skip(1), wanted)
    }
}

/// Slots of a height.
pub open spec fn at_height(height: u64) -> spec_fn(PayloadSlot) -> bool {
    |slot: PayloadSlot| slot.height == height
}

/// Slots of a height whose payload decides the search for an order: it has the
/// order's transactions and base fees, or the identifiers of its transactions
/// cannot be computed.
pub open spec fn decides_order(
    payloads: Map<PayloadSlot, BlockModel>,
    height: u64,
    ids: Seq<Hash256>,
    fee_commitment: Hash256,
) -> spec_fn(PayloadSlot) -> bool {
    |slot: PayloadSlot|
        slot.height == height && (!all_encodable(payloads[slot].transactions) || (ids_of(
            payloads[slot].transactions,
        ) == ids && fee_commitment_of(payloads[slot].base_fees) == fee_commitment))
}

/// The payload held for a height: the first candidate, or the one kept for repair.
pub open spec fn payload_held(state: PipelineModel, height: u64) -> Option<BlockModel> {
    match first_slot(sorted_keys(state.payloads.dom()), at_height(height)) {
        Some(slot) => Some(state.payloads[slot]),
        None => if state.recent_payloads.contains_key(height) {
            Some(state.recent_payloads[height])
        } else {
            None
        },
    }
}

/// What searching the payload of an order comes to.
pub open spec fn order_search(
    state: PipelineModel,
    height: u64,
    ids: Seq<Hash256>,
    fee_commitment: Hash256,
    result: Result<Option<PropagatedBlock>, PipelineError>,
) -> bool {
    match first_slot(
        sorted_keys(state.payloads.dom()),
        decides_order(state.payloads, height, ids, fee_commitment),
    ) {
        None => result == Ok::<Option<PropagatedBlock>, PipelineError>(None),
        Some(slot) => if all_encodable(state.payloads[slot].transactions) {
            result matches Ok(Some(payload)) && payload@ == state.payloads[slot]
        } else {
            result matches Err(PipelineError::Lifecycle(LifecycleError::Encoding(_)))
        },
    }
}

/// The pipeline once a sender's reservation is released, with the transaction
/// that held it.
pub open spec fn released(state: PipelineModel, sender: Address) -> PipelineModel {
    if state.reserved_senders.contains_key(sender) {
        PipelineModel {
            transactions: state.transactions.remove(state.reserved_senders[sender]),
            reserved_senders: state.reserved_senders.remove(sender),
            ..state
        }
    } else {
        state
    }
}

/// The pipeline once the senders of transactions are released and their nonces
/// moved on.
pub open spec fn moved_on(state: PipelineModel, transactions: Seq<TransactionModel>) -> PipelineModel
    decreases transactions.len(),
{
    if transactions.len() == 0 {
        state
    } else {
        let last = transactions.last();
        let earlier = released(moved_on(state, transactions.drop_last()), last.sender);
        PipelineModel {
            next_nonces: earlier.next_nonces.insert(last.sender, (last.nonce + 1) as u64),
            ..earlier
        }
    }
}

/// The payloads kept for repair: where there is one too many, the lowest height goes.
pub open spec fn kept_for_repair(recent: Map<u64, BlockModel>) -> Map<u64, BlockModel> {
    if recent.dom().len() > RETAINED_PAYLOADS_FOR_REPAIR {
        recent.remove(sorted_keys(recent.dom())[0])
    } else {
        recent
    }
}

/// Slots up to a height.
pub open spec fn through(height: u64) -> Set<PayloadSlot> {
    Set::new(|slot: PayloadSlot| slot.height <= height)
}

/// The pipeline once a payload was submitted to execution.
pub open spec fn retired(state: PipelineModel, payload: BlockModel) -> PipelineModel {
    let moved = moved_on(state, payload.transactions);
    let ids = ids_of(payload.transactions).to_set();
    PipelineModel {
        market: MarketModel {
            queues: queues_without(moved.market.queues, ids),
            ids: moved.market.ids.difference(ids),
            ..moved.market
        },
        transactions: moved.transactions.remove_keys(ids),
        recent_payloads: kept_for_repair(moved.recent_payloads.insert(payload.height, payload)),
        payloads: moved.payloads.remove_keys(through(payload.height)),
        propagated: moved.propagated.difference(through(payload.height)),
        retired_height: if moved.retired_height < payload.height {
            payload.height
        } else {
            moved.retired_height
        },
        ..moved
    }
}

/// The transaction at `i` is the first that has no next nonce.
pub open spec fn exhausts_nonces(transactions: Seq<TransactionModel>, i: int) -> bool {
    &&& 0 <= i < transactions.len()
    &&& transactions[i].nonce == u64::MAX
    &&& forall|j: int| 0 <= j < i ==> (#[trigger] transactions[j]).nonce < u64::MAX
}

/// What noting a submitted payload comes to.
pub open spec fn submission_noted(
    before: PipelineModel,
    after: PipelineModel,
    payload: BlockModel,
    result: Result<Vec<Hash256>, PipelineError>,
) -> bool {
    let transactions = payload.transactions;
    match result {
        Ok(ids) => {
            &&& all_encodable(transactions)
            &&& forall|i: int|
                0 <= i < transactions.len() ==> (#[trigger] transactions[i]).nonce < u64::MAX
            &&& ids@ == sorted_keys(ids_of(transactions).to_set())
            &&& after == retired(before, payload)
        },
        Err(PipelineError::NonceOverflow) => {
            &&& all_encodable(transactions)
            &&& exists|i: int| #[trigger]
                exhausts_nonces(transactions, i) && after == released(
                    moved_on(before, transactions.take(i)),
                    transactions[i].sender,
                )
        },
        Err(error) => {
            &&& error matches PipelineError::Lifecycle(LifecycleError::Encoding(_))
            &&& !all_encodable(transactions)
            &&& after == before
        },
    }
}

impl PipelineState {
    /// Whether the market is in order and the pipeline is sound.
    pub closed spec fn wf(&self) -> bool {
        self.mempool.wf() && sound_pipeline(self@)
    }

    /// What `wf` says of the value.
    pub proof fn lemma_sound(&self)
        requires
            self.wf(),
        ensures
            sound_pipeline(self@),
    {
    }

    /// The pipeline before anything has arrived, with the nonces and the height
    /// that execution starts from.
    ///
    /// # Errors
    ///
    /// Rejects a zero limit of transactions per scope.
    pub fn new(
        config: Stage2PipelineConfig,
        next_nonces: OrderedMap<Address, u64>,
        retired_height: u64,
    ) -> (result: Result<Self, MempoolError>)
        ensures
            match result {
                Ok(state) => {
                    &&& config.per_scope_block_limit > 0
                    &&& state.wf()
                    &&& state@ == fresh_pipeline(config, next_nonces@, retired_height)
                },
                Err(error) => config.per_scope_block_limit == 0 && error
                    == MempoolError::ZeroScopeLimit,
            },
    {
        let mempool = match LocalizedMempool::<PriorityFeePolicy>::new(
            config.base_fee_per_compute,
            config.congestion_increment,
            config.per_scope_block_limit,
        ) {
            Ok(mempool) => mempool,
            Err(error) => {
                return Err(error);
            },
        };
        let state = PipelineState {
            capacity: config.maximum_inflight_shred_blocks,
            mempool,
            transactions: OrderedMap::new(),
            reserved_senders: OrderedMap::new(),
            next_nonces,
            arrival_sequence: 0,
            payloads: OrderedMap::new(),
            shreds: OrderedMap::new(),
            propagated: OrderedSet::new(),
            retired_height,
            shreds_received: 0,
            payloads_reconstructed: 0,
            shred_arrivals: OrderedMap::new(),
            shred_sequence: 0,
            recent_payloads: OrderedMap::new(),
        };
        assert(state@ =~= fresh_pipeline(config, next_nonces@, retired_height));
        Ok(state)
    }

    /// Checks a transaction for admission. What passes is to be stored before
    /// it is completed, so that a failure to store leaves nothing to unwind.
    ///
    /// # Errors
    ///
    /// Rejects invalid signatures, payloads and fee bids, a nonce that is not the
    /// sender's next one, and a sender that holds a reservation already.
    pub fn prepare_admission(
        &self,
        validator: &TransactionValidator,
        transaction: Transaction,
        decoding: PayloadDecoding,
    ) -> (result: Result<AdmissionStep, PipelineError>)
        ensures
            admission_step(self@, validator@, transaction@, decoding, result),
            result matches Ok(AdmissionStep::Store(admission)) ==> fits_state(self@, admission),
    {
        let (id, payload) = match validator.validate(&transaction, decoding) {
            Ok(valid) => valid,
            Err(error) => {
                return Err(PipelineError::Lifecycle(error));
            },
        };
        if self.transactions.contains_key(&id) {
            return Ok(AdmissionStep::Known(id));
        }
        let expected: u64 = match self.next_nonces.get(&transaction.sender) {
            Some(nonce) => *nonce,
            None => 0,
        };
        if transaction.nonce != expected {
            return Err(PipelineError::NonceMismatch { expected, received: transaction.nonce });
        }
        if self.reserved_senders.contains_key(&transaction.sender) {
            return Err(PipelineError::SenderAlreadyReserved(transaction.sender));
        }
        let ids = collect_reference_ids(&payload.executable.object_references);
        let touched_objects = OrderedSet::from_keys(&ids);
        let keys = touched_objects.keys();
        let scope = if keys.len() > 0 {
            proof {
                assert(keys@.contains(keys@[0]));
                assert(touched_objects@.contains(keys@[0]));
            }
            FeeScope::Object(keys[0])
        } else {
            proof {
                assert(touched_objects@ =~= Set::<ObjectId>::empty()) by {
                    assert forall|id: ObjectId| !touched_objects@.contains(id) by {
                        assert(!keys@.contains(id));
                    }
                }
            }
            FeeScope::Account(transaction.sender)
        };
        let encoded = match encode_transaction(&transaction) {
            Ok(encoded) => encoded,
            Err(reason) => {
                return Err(PipelineError::Encoding(reason));
            },
        };
        let submitted = SubmittedTransaction {
            id,
            sender: transaction.sender,
            scope,
            touched_objects,
            compute_limit: payload.executable.compute_limit,
            max_fee_per_compute: payload.max_fee_per_compute,
            priority_fee_per_compute: payload.priority_fee_per_compute,
            arrival_sequence: self.arrival_sequence,
            policy_data: payload.policy_data,
        };
        Ok(AdmissionStep::Store(Admission { id, transaction, submitted, encoded }))
    }

    /// Completes an admission that has been stored: the market quotes it, and
    /// the sender is reserved until the transaction is submitted.
    ///
    /// # Errors
    ///
    /// Returns the market's refusal; the stored admission is then to be deleted.
    pub fn complete_admission(&mut self, admission: Admission) -> (result: Result<
        Hash256,
        PipelineError,
    >)
        requires
            old(self).wf(),
            fits_state(old(self)@, admission),
        ensures
            final(self).wf(),
            match submit_result(old(self)@.market, admission.submitted) {
                Ok(quote) => {
                    &&& result == Ok::<Hash256, PipelineError>(admission.id)
                    &&& final(self)@ == (PipelineModel {
                        market: final(self)@.market,
                        ..admitted(old(self)@, admission)
                    })
                    &&& market_took(
                        old(self)@.market,
                        final(self)@.market,
                        admission.submitted,
                        quote,
                    )
                },
                Err(refused) => {
                    &&& result == Err::<Hash256, PipelineError>(PipelineError::Mempool(refused))
                    &&& final(self)@ == (PipelineModel {
                        arrival_sequence: next_count(old(self)@.arrival_sequence),
                        ..old(self)@
                    })
                },
            },
    {
        let ghost before = self@;
        self.arrival_sequence = self.arrival_sequence.saturating_add(1);
        let id = admission.id;
        match self.mempool.submit(admission.submitted) {
            Ok(_) => {},
            Err(error) => {
                assert(self@ =~= (PipelineModel {
                    arrival_sequence: next_count(before.arrival_sequence),
                    ..before
                }));
                return Err(PipelineError::Mempool(error));
            },
        }
        let sender = admission.transaction.sender;
        self.reserved_senders.insert(sender, id);
        self.transactions.insert(id, admission.transaction);
        proof {
            assert(self@.transactions =~= before.transactions.insert(id, admission.transaction@));
            assert(self@ =~= (PipelineModel {
                market: self@.market,
                ..admitted(before, admission)
            }));
        }
        Ok(id)
    }

    /// Takes back an admission; its stored record is to be deleted.
    pub fn rollback(&mut self, id: Hash256)
        requires
            old(self).wf(),
        ensures
            final(self).wf(),
            final(self)@ == rolled_back(old(self)@, id),
    {
        let ghost before = self@;
        let mut ids: OrderedSet<Hash256> = OrderedSet::new();
        ids.insert(id);
        assert(ids@ =~= set![id]);
        self.mempool.remove_transactions(&ids);
        match self.transactions.remove(&id) {
            Some(transaction) => {
                self.reserved_senders.remove(&transaction.sender);
            },
            None => {},
        }
        proof {
            assert(self@.transactions =~= before.transactions.remove(id));
            assert(self@ =~= rolled_back(before, id));
        }
    }

    /// The payload to propose for a height and parent: the one that was built
    /// before, or a new one selected from the market.
    ///
    /// # Errors
    ///
    /// Refuses heights beyond the one after the last retired height: selecting
    /// now would risk including a transaction that is already canonical at an
    /// earlier height. Fails where a selected transaction is not stored.
    pub fn build_or_get_payload(
        &mut self,
        height: u64,
        parent_id: Hash256,
        maximum_block_transactions: usize,
    ) -> (result: Result<PropagatedBlock, PipelineError>)
        requires
            old(self).wf(),
        ensures
            final(self).wf(),
            payload_asked(
                old(self)@,
                final(self)@,
                height,
                parent_id,
                maximum_block_transactions,
                result,
            ),
    {
        let ghost before = self@;
        let slot = PayloadSlot { height, discriminator: parent_id };
        if let Some(payload) = self.payloads.get(&slot) {
            return Ok(payload.clone());
        }
        if height > self.retired_height.saturating_add(1) {
            return Err(
                PipelineError::PreviousHeightNotRetired {
                    height,
                    retired_height: self.retired_height,
                },
            );
        }
        let selection = self.mempool.select_block(maximum_block_transactions);
        let ghost picked = selection.transactions@;
        assert(market_gave(before.market, self@.market, picked));
        let ghost block = selected_block(height, parent_id, picked, before.transactions);
        let mut transactions: Vec<Transaction> = Vec::new();
        let mut base_fees: Vec<u128> = Vec::new();
        let mut index: usize = 0;
        assert(transaction_models(transactions@) =~= block.transactions.take(0));
        assert(base_fees@ =~= block.base_fees.take(0));
        while index < selection.transactions.len()
            invariant
                index <= picked.len(),
                picked == selection.transactions@,
                self@ == (PipelineModel { market: self@.market, ..before }),
                self.mempool.wf(),
                market_gave(before.market, self@.market, picked),
                before == old(self)@,
                sound_pipeline(before),
                self@.transactions == before.transactions,
                picked == block_of(
                    before.market.queues,
                    before.market.limit as nat,
                    maximum_block_transactions as nat,
                ),
                slot == (PayloadSlot { height, discriminator: parent_id }),
                !before.payloads.contains_key(slot),
                height <= next_count(before.retired_height),
                block == selected_block(height, parent_id, picked, before.transactions),
                transaction_models(transactions@) == block.transactions.take(index as int),
                base_fees@ == block.base_fees.take(index as int),
                forall|i: int|
                    0 <= i < index ==> before.transactions.contains_key(
                        (#[trigger] picked[i]).transaction.id,
                    ),
            decreases picked.len() - index,
        {
            let id = selection.transactions[index].transaction.id;
            let ghost so_far = transactions@;
            match self.transactions.get(&id) {
                Some(transaction) => {
                    let copy = transaction.clone();
                    transactions.push(copy);
                    base_fees.push(selection.transactions[index].local_base_fee_per_compute);
                    proof {
                        assert(before.transactions[id] == copy@);
                        assert(transaction_models(transactions@) =~= transaction_models(
                            so_far,
                        ).push(copy@));
                        assert(transaction_models(transactions@) =~= block.transactions.take(
                            index + 1,
                        ));
                        assert(base_fees@ =~= block.base_fees.take(index + 1));
                    }
                },
                None => {
                    assert(!before.transactions.contains_key(picked[index as int].transaction.id));
                    return Err(PipelineError::SelectedTransactionUnavailable);
                },
            }
            index += 1;
        }
        let payload = PropagatedBlock { height, parent_id, transactions, base_fees };
        proof {
            assert(transaction_models(transactions@) =~= block.transactions);
            assert(base_fees@ =~= block.base_fees);
            assert(payload@ == block);
        }
        let copy = payload.clone();
        self.payloads.insert(slot, copy);
        proof {
            assert(self@.payloads =~= before.payloads.insert(slot, block));
            assert(self@ =~= (PipelineModel {
                market: self@.market,
                payloads: before.payloads.insert(slot, block),
                ..before
            }));
        }
        Ok(payload)
    }

    /// Records a shred. Once as many shreds of its block have arrived as it asks
    /// for, they are rebuilt to the payload.
    ///
    /// # Errors
    ///
    /// Fails where shreds may not be held at all, and where the shreds of the
    /// block rebuild to no payload; they stay in that case.
    pub fn collect_shred(&mut self, shred: Shred) -> (result: Result<
        Option<PropagatedBlock>,
        PipelineError,
    >)
        requires
            old(self).wf(),
        ensures
            final(self).wf(),
            if no_room(old(self)@) {
                &&& result == Err::<Option<PropagatedBlock>, PipelineError>(
                    PipelineError::InflightShredLimitReached,
                )
                &&& final(self)@ == (PipelineModel {
                    shreds_received: next_count(old(self)@.shreds_received),
                    ..old(self)@
                })
            } else {
                &&& final(self)@ == received(old(self)@, shred@)
                &&& group_result(
                    final(self)@.shreds[shred@.block_id],
                    shred@.data_shards,
                    result,
                )
            },
    {
        let ghost before = self@;
        let ghost value = shred@;
        let block_id = shred.block_id;
        let data_shards: usize = shred.data_shards as usize;
        self.shreds_received = self.shreds_received.saturating_add(1);
        let room = evict_stale_shred_group(
            &mut self.shreds,
            &mut self.shred_arrivals,
            self.capacity,
            block_id,
        );
        proof {
            assert(before.shreds.dom() =~= old(self).shreds@.dom());
            lemma_eviction(before, block_id);
            if !room {
                assert(before.shreds.dom() =~= Set::empty());
            }
        }
        if !room {
            assert(self@ =~= (PipelineModel {
                shreds_received: next_count(before.shreds_received),
                ..before
            }));
            return Err(PipelineError::InflightShredLimitReached);
        }
        let ghost ready = with_room(before, block_id);
        proof {
            if !(before.shreds.contains_key(block_id) || before.shreds.dom().len()
                < before.capacity) {
                let id = choose|id: Hash256|
                    is_stalest(before.shred_arrivals, block_id, id) && self.shreds@ == old(
                        self,
                    ).shreds@.remove(id) && self.shred_arrivals@ == before.shred_arrivals.remove(
                        id,
                    );
                lemma_stalest_unique(
                    before.shred_arrivals,
                    block_id,
                    id,
                    stalest(before.shred_arrivals, block_id),
                );
            }
            assert(group_values(self.shreds@) =~= ready.shreds);
            assert(self.shred_arrivals@ =~= ready.shred_arrivals);
        }
        self.shred_sequence = self.shred_sequence.saturating_add(1);
        self.shred_arrivals.insert(block_id, self.shred_sequence);
        let mut group = match self.shreds.remove(&block_id) {
            Some(group) => group,
            None => OrderedMap::new(),
        };
        let ghost earlier = group_value(group);
        proof {
            if ready.shreds.contains_key(block_id) {
                assert(earlier == ready.shreds[block_id]);
            } else {
                assert(earlier =~= Map::empty());
            }
        }
        if !group.contains_key(&shred.index) {
            let index: u16 = shred.index;
            group.insert(index, shred);
            assert(group_value(group) =~= earlier.insert(index, value));
        }
        let ghost whole = group_value(group);
        assert(whole == group_with(ready.shreds, value));
        let count: usize = group.len();
        assert(whole.dom() =~= group@.dom());
        if count < data_shards {
            self.shreds.insert(block_id, group);
            proof {
                assert(self@ =~= received(before, value));
                law_shred_buffer_is_bounded(before, value);
            }
            return Ok(None);
        }
        let parts = collect_shreds(&group);
        self.shreds.insert(block_id, group);
        proof {
            assert(self@ =~= received(before, value));
            law_shred_buffer_is_bounded(before, value);
        }
        match PropagatedBlock::from_shreds(&parts) {
            Ok(payload) => Ok(Some(payload)),
            Err(error) => Err(PipelineError::Lifecycle(error)),
        }
    }

    /// Takes up the payload that the shreds of a block rebuilt to, once all its
    /// transactions are valid. It is kept under its own identity: different
    /// leaders propose different payloads for one height and parent, and the
    /// certified order may name any of them.
    ///
    /// # Errors
    ///
    /// Returns why the first invalid transaction is refused.
    pub fn accept_payload(
        &mut self,
        validator: &TransactionValidator,
        block_id: Hash256,
        payload: PropagatedBlock,
        decodings: Vec<PayloadDecoding>,
    ) -> (result: Result<(), PipelineError>)
        requires
            old(self).wf(),
            decodings@.len() == payload@.transactions.len(),
        ensures
            final(self).wf(),
            match result {
                Ok(()) => {
                    &&& all_valid(validator@, payload@, decodings@)
                    &&& encodable_block(payload@)
                    &&& final(self)@ == rebuilt(old(self)@, block_id, payload@)
                },
                Err(error) => {
                    &&& payload_refused(validator@, payload@, decodings@, error)
                    &&& final(self)@ == old(self)@
                },
            },
    {
        let ghost before = self@;
        let ghost value = payload@;
        match check_transactions(validator, &payload, decodings) {
            Ok(()) => {},
            Err(error) => {
                return Err(error);
            },
        }
        let identity = match payload.payload_id() {
            Ok(identity) => identity,
            Err(error) => {
                return Err(PipelineError::Lifecycle(error));
            },
        };
        self.payloads_reconstructed = self.payloads_reconstructed.saturating_add(1);
        let slot = PayloadSlot { height: payload.height, discriminator: identity };
        if !self.payloads.contains_key(&slot) {
            self.payloads.insert(slot, payload);
            assert(self@.payloads =~= before.payloads.insert(slot, value));
        }
        self.shreds.remove(&block_id);
        self.shred_arrivals.remove(&block_id);
        proof {
            assert(self@.shreds =~= before.shreds.remove(block_id));
            assert(self@ =~= rebuilt(before, block_id, value));
            assert(self@.shreds.dom() =~= before.shreds.dom().remove(block_id));
            assert(self@.shred_arrivals.dom() =~= before.shred_arrivals.dom().remove(block_id));
        }
        Ok(())
    }

    /// Any payload held for a height, for answering a peer's repair request.
    pub fn payload_at_height(&self, height: u64) -> (payload: Option<PropagatedBlock>)
        ensures
            match payload {
                Some(payload) => payload_held(self@, height) == Some(payload@),
                None => payload_held(self@, height) is None,
            },
    {
        let slots = self.payloads.keys();
        let ghost wanted = at_height(height);
        let mut index: usize = 0;
        assert(slots@.skip(0) =~= slots@);
        assert(self@.payloads.dom() =~= self.payloads@.dom());
        while index < slots.len()
            invariant
                index <= slots@.len(),
                wanted == at_height(height),
                slots@ == sorted_keys(self@.payloads.dom()),
                forall|slot: PayloadSlot| slots@.contains(slot) <==> self.payloads@.contains_key(slot),
                first_slot(slots@, wanted) == first_slot(slots@.skip(index as int), wanted),
            decreases slots@.len() - index,
        {
            assert(slots@.skip(index as int).skip(1) =~= slots@.skip(index + 1));
            if slots[index].height == height {
                assert(slots@.contains(slots@[index as int]));
                if let Some(payload) = self.payloads.get(&slots[index]) {
                    return Some(payload.clone());
                }
            }
            index += 1;
        }
        match self.recent_payloads.get(&height) {
            Some(payload) => Some(payload.clone()),
            None => None,
        }
    }

    /// The payload that a finalized order names.
    ///
    /// # Errors
    ///
    /// Fails where the identifiers of a candidate's transactions cannot be
    /// computed.
    pub fn payload_for_order(&self, order: &FinalizedOrder) -> (result: Result<
        Option<PropagatedBlock>,
        PipelineError,
    >)
        ensures
            order_search(
                self@,
                order@.height,
                order@.transaction_ids,
                order@.fee_commitment,
                result,
            ),
    {
        let slots = self.payloads.keys();
        let ghost wanted = decides_order(
            self@.payloads,
            order@.height,
            order@.transaction_ids,
            order@.fee_commitment,
        );
        let mut index: usize = 0;
        assert(slots@.skip(0) =~= slots@);
        assert(self@.payloads.dom() =~= self.payloads@.dom());
        while index < slots.len()
            invariant
                index <= slots@.len(),
                wanted == decides_order(
                    self@.payloads,
                    order@.height,
                    order@.transaction_ids,
                    order@.fee_commitment,
                ),
                slots@ == sorted_keys(self@.payloads.dom()),
                forall|slot: PayloadSlot| slots@.contains(slot) <==> self.payloads@.contains_key(slot),
                first_slot(slots@, wanted) == first_slot(slots@.skip(index as int), wanted),
            decreases slots@.len() - index,
        {
            assert(slots@.skip(index as int).skip(1) =~= slots@.skip(index + 1));
            if slots[index].height == order.height {
                assert(slots@.contains(slots@[index as int]));
                if let Some(payload) = self.payloads.get(&slots[index]) {
                    match payload.transaction_ids() {
                        Ok(ids) => {
                            if same_ids(&ids, &order.transaction_ids) && payload.fee_commitment()
                                == order.fee_commitment {
                                return Ok(Some(payload.clone()));
                            }
                        },
                        Err(error) => {
                            return Err(PipelineError::Lifecycle(error));
                        },
                    }
                }
            }
            index += 1;
        }
        Ok(None)
    }

    /// Retires the transactions of a certified, submitted order from admission:
    /// from the market's queues, the reservations and the nonces. Returns the
    /// identifiers whose stored admissions are to be deleted.
    ///
    /// A validator that never led the height never took these transactions out
    /// of its own market, so it could otherwise select a canonical transaction
    /// again into a later height that it leads.
    ///
    /// # Errors
    ///
    /// Fails where the identifiers cannot be computed, and where a transaction
    /// has no next nonce.
    pub fn note_submitted(&mut self, payload: &PropagatedBlock) -> (result: Result<
        Vec<Hash256>,
        PipelineError,
    >)
        requires
            old(self).wf(),
        ensures
            final(self).wf(),
            submission_noted(old(self)@, final(self)@, payload@, result),
    {
        let ghost before = self@;
        let ghost value = payload@;
        let ghost transactions = value.transactions;
        let listed = match payload.transaction_ids() {
            Ok(ids) => ids,
            Err(error) => {
                return Err(PipelineError::Lifecycle(error));
            },
        };
        let ids = OrderedSet::from_keys(&listed);
        let mut index: usize = 0;
        assert(transactions.take(0) =~= Seq::<TransactionModel>::empty());
        while index < payload.transactions.len()
            invariant
                index <= payload.transactions@.len(),
                value == payload@,
                before == old(self)@,
                transactions == value.transactions,
                all_encodable(transactions),
                self.mempool.wf(),
                sound_pipeline(self@),
                self@ == moved_on(before, transactions.take(index as int)),
                forall|i: int|
                    0 <= i < index ==> (#[trigger] transactions[i]).nonce < u64::MAX,
            decreases payload.transactions@.len() - index,
        {
            let ghost earlier = self@;
            let sender = payload.transactions[index].sender;
            let nonce: u64 = payload.transactions[index].nonce;
            proof {
                assert(transactions[index as int] == payload.transactions@[index as int]@);
                let longer = transactions.take(index + 1);
                assert(longer.drop_last() =~= transactions.take(index as int));
                assert(longer.last() == transactions[index as int]);
            }
            match self.reserved_senders.remove(&sender) {
                Some(reserved) => {
                    self.transactions.remove(&reserved);
                    assert(self@.transactions =~= earlier.transactions.remove(reserved));
                },
                None => {
                    assert(self.reserved_senders@ =~= earlier.reserved_senders);
                },
            }
            assert(self@ =~= released(earlier, sender));
            assert(sound_pipeline(self@));
            if nonce == u64::MAX {
                assert(exhausts_nonces(transactions, index as int));
                return Err(PipelineError::NonceOverflow);
            }
            self.next_nonces.insert(sender, nonce + 1);
            assert(self@ =~= moved_on(before, transactions.take(index + 1)));
            index += 1;
        }
        assert(transactions.take(index as int) =~= transactions);
        let ghost moved = self@;
        let ghost gone = ids_of(transactions).to_set();
        assert(ids@ =~= gone);
        self.mempool.remove_transactions(&ids);
        let keys = ids.keys();
        let mut position: usize = 0;
        proof {
            assert(keys@.take(0).to_set() =~= Set::empty());
            assert(self@.transactions =~= moved.transactions.remove_keys(keys@.take(0).to_set()));
        }
        while position < keys.len()
            invariant
                position <= keys@.len(),
                self.mempool.wf(),
                self@ == (PipelineModel {
                    market: MarketModel {
                        queues: queues_without(moved.market.queues, gone),
                        ids: moved.market.ids.difference(gone),
                        ..moved.market
                    },
                    transactions: moved.transactions.remove_keys(
                        keys@.take(position as int).to_set(),
                    ),
                    ..moved
                }),
            decreases keys@.len() - position,
        {
            let ghost earlier = self@;
            self.transactions.remove(&keys[position]);
            proof {
                let longer = keys@.take(position + 1);
                lemma_take_one_more(keys@, position as int);
                assert(self@.transactions =~= earlier.transactions.remove(
                    keys@[position as int],
                ));
                assert(self@.transactions =~= moved.transactions.remove_keys(longer.to_set()));
                assert(self@ =~= (PipelineModel {
                    market: earlier.market,
                    transactions: moved.transactions.remove_keys(longer.to_set()),
                    ..moved
                }));
            }
            position += 1;
        }
        proof {
            assert(keys@.take(position as int) =~= keys@);
            assert(keys@.to_set() =~= gone) by {
                assert forall|id: Hash256| keys@.to_set().contains(id) <==> gone.contains(id) by {
                    assert(keys@.contains(id) <==> ids@.contains(id));
                }
            }
        }
        let copy = payload.clone();
        self.recent_payloads.insert(payload.height, copy);
        let ghost recent = block_values(self.recent_payloads@);
        proof {
            assert(recent =~= moved.recent_payloads.insert(value.height, value));
            assert(recent.dom() =~= self.recent_payloads@.dom());
            assert(recent.dom() =~= moved.recent_payloads.dom().insert(value.height));
        }
        if self.recent_payloads.len() > RETAINED_PAYLOADS_FOR_REPAIR {
            let heights = self.recent_payloads.keys();
            assert(heights@.contains(heights@[0]));
            self.recent_payloads.remove(&heights[0]);
            assert(block_values(self.recent_payloads@) =~= recent.remove(heights@[0]));
        }
        proof {
            assert(block_values(self.recent_payloads@) == kept_for_repair(recent));
        }
        drop_payloads(&mut self.payloads, payload.height);
        drop_slots(&mut self.propagated, payload.height);
        if self.retired_height < payload.height {
            self.retired_height = payload.height;
        }
        proof {
            assert(self@.payloads =~= moved.payloads.remove_keys(through(value.height)));
            assert(self@ =~= retired(before, value));
            assert(kept_for_repair(recent).dom().finite());
            if recent.dom().len() > RETAINED_PAYLOADS_FOR_REPAIR {
                let lowest = sorted_keys(recent.dom())[0];
                assert(kept_for_repair(recent).dom() =~= recent.dom().remove(lowest));
            }
        }
        Ok(keys)
    }

    /// Snapshot of this validator's shred and payload path.
    pub fn shred_stats(&self) -> (stats: ShredStats)
        ensures
            stats == (ShredStats {
                shreds_received: self@.shreds_received,
                payloads_reconstructed: self@.payloads_reconstructed,
                payloads_available: self@.payloads.dom().len() as usize,
                incomplete_shred_blocks: self@.shreds.dom().len() as usize,
            }),
            stats.payloads_available == self@.payloads.dom().len(),
            stats.incomplete_shred_blocks == self@.shreds.dom().len(),
    {
        assert(self@.payloads.dom() =~= self.payloads@.dom());
        assert(self@.shreds.dom() =~= self.shreds@.dom());
        ShredStats {
            shreds_received: self.shreds_received,
            payloads_reconstructed: self.payloads_reconstructed,
            payloads_available: self.payloads.len(),
            incomplete_shred_blocks: self.shreds.len(),
        }
    }

    /// Whether no transaction is stored.
    pub fn is_empty(&self) -> (empty: bool)
        ensures
            empty == (self@.transactions == Map::<Hash256, TransactionModel>::empty()),
    {
        proof {
            assert(self@.transactions.dom() =~= self.transactions@.dom());
            if self@.transactions =~= Map::<Hash256, TransactionModel>::empty() {
                assert(self.transactions@ =~= Map::<Hash256, Transaction>::empty());
            }
            if self.transactions@ =~= Map::<Hash256, Transaction>::empty() {
                assert(self@.transactions =~= Map::<Hash256, TransactionModel>::empty());
            }
        }
        self.transactions.is_empty()
    }

    /// Whether a payload has been propagated.
    pub fn is_propagated(&self, slot: PayloadSlot) -> (propagated: bool)
        ensures
            propagated == self@.propagated.contains(slot),
    {
        self.propagated.contains(&slot)
    }

    /// Records that a payload has been propagated.
    pub fn mark_propagated(&mut self, slot: PayloadSlot)
        requires
            old(self).wf(),
        ensures
            final(self).wf(),
            final(self)@ == (PipelineModel {
                propagated: old(self)@.propagated.insert(slot),
                ..old(self)@
            }),
    {
        self.propagated.insert(slot);
    }
}

/// Drops the payloads up to a height.
fn drop_payloads(payloads: &mut OrderedMap<PayloadSlot, PropagatedBlock>, height: u64)
    ensures
        final(payloads)@ == old(payloads)@.remove_keys(through(height)),
{
    let ghost before = payloads@;
    let slots = payloads.keys();
    let mut index: usize = 0;
    assert(payloads@ =~= before.remove_keys(
        through(height).intersect(slots@.take(0).to_set()),
    ));
    while index < slots.len()
        invariant
            index <= slots@.len(),
            payloads@ == before.remove_keys(
                through(height).intersect(slots@.take(index as int).to_set()),
            ),
            forall|slot: PayloadSlot| slots@.contains(slot) <==> before.contains_key(slot),
        decreases slots@.len() - index,
    {
        proof {
            lemma_take_one_more(slots@, index as int);
        }
        if slots[index].height <= height {
            payloads.remove(&slots[index]);
        }
        assert(payloads@ =~= before.remove_keys(
            through(height).intersect(slots@.take(index + 1).to_set()),
        ));
        index += 1;
    }
    proof {
        assert(slots@.take(index as int) =~= slots@);
        assert forall|slot: PayloadSlot| before.contains_key(slot) implies slots@.to_set().contains(
            slot,
        ) by {
            assert(slots@.contains(slot));
        }
        assert(payloads@ =~= before.remove_keys(through(height)));
    }
}

/// Drops the slots up to a height.
fn drop_slots(set: &mut OrderedSet<PayloadSlot>, height: u64)
    ensures
        final(set)@ == old(set)@.difference(through(height)),
{
    let ghost before = set@;
    let slots = set.keys();
    let mut index: usize = 0;
    assert(set@ =~= before.difference(through(height).intersect(slots@.take(0).to_set())));
    while index < slots.len()
        invariant
            index <= slots@.len(),
            set@ == before.difference(
                through(height).intersect(slots@.take(index as int).to_set()),
            ),
            forall|slot: PayloadSlot| slots@.contains(slot) <==> before.contains(slot),
        decreases slots@.len() - index,
    {
        proof {
            lemma_take_one_more(slots@, index as int);
        }
        if slots[index].height <= height {
            set.remove(&slots[index]);
        }
        assert(set@ =~= before.difference(
            through(height).intersect(slots@.take(index + 1).to_set()),
        ));
        index += 1;
    }
    proof {
        assert(slots@.take(index as int) =~= slots@);
        assert forall|slot: PayloadSlot| before.contains(slot) implies slots@.to_set().contains(
            slot,
        ) by {
            assert(slots@.contains(slot));
        }
        assert(set@ =~= before.difference(through(height)));
    }
}

/// One more element of a list joins the set of those before it.
proof fn lemma_take_one_more<T>(list: Seq<T>, index: int)
    requires
        0 <= index < list.len(),
    ensures
        list.take(index + 1).to_set() == list.take(index).to_set().insert(list[index]),
{
    let shorter = list.take(index);
    let longer = list.take(index + 1);
    assert(longer =~= shorter.push(list[index]));
    assert forall|item: T| longer.to_set().contains(item) <==> shorter.to_set().insert(
        list[index],
    ).contains(item) by {
        if shorter.contains(item) {
            let i = choose|i: int| 0 <= i < shorter.len() && shorter[i] == item;
            assert(longer[i] == item);
        }
        assert(longer[index] == list[index]);
    }
    assert(longer.to_set() =~= shorter.to_set().insert(list[index]));
}

/// The shreds of a group, by ascending index.
fn collect_shreds(group: &OrderedMap<u16, Shred>) -> (shreds: Vec<Shred>)
    ensures
        shred_models(shreds@) == shreds_in(group_value(*group)),
{
    let indices = group.keys();
    let ghost value = group_value(*group);
    let mut shreds: Vec<Shred> = Vec::new();
    let mut position: usize = 0;
    assert(value.dom() =~= group@.dom());
    assert(shred_models(shreds@) =~= shreds_in(value).take(0));
    while position < indices.len()
        invariant
            position <= indices@.len(),
            value == group_value(*group),
            indices@ == sorted_keys(value.dom()),
            forall|index: u16| indices@.contains(index) <==> group@.contains_key(index),
            shred_models(shreds@) == shreds_in(value).take(position as int),
        decreases indices@.len() - position,
    {
        let ghost so_far = shreds@;
        assert(indices@.contains(indices@[position as int]));
        if let Some(shred) = group.get(&indices[position]) {
            let copy = shred.clone();
            shreds.push(copy);
            proof {
                assert(shred_models(shreds@) =~= shred_models(so_far).push(copy@));
                assert(shred_models(shreds@) =~= shreds_in(value).take(position + 1));
            }
        }
        position += 1;
    }
    assert(shred_models(shreds@) =~= shreds_in(value));
    shreds
}

/// Whether all transactions of a payload are valid by themselves.
fn check_transactions(
    validator: &TransactionValidator,
    payload: &PropagatedBlock,
    decodings: Vec<PayloadDecoding>,
) -> (result: Result<(), PipelineError>)
    requires
        decodings@.len() == payload@.transactions.len(),
    ensures
        match result {
            Ok(()) => all_valid(validator@, payload@, decodings@),
            Err(error) => payload_refused(validator@, payload@, decodings@, error)
                && !all_valid(validator@, payload@, decodings@),
        },
{
    let ghost all = decodings@;
    let ghost value = payload@;
    let mut remaining = decodings;
    let mut index: usize = 0;
    let count: usize = payload.transactions.len();
    assert(value.transactions.len() == count);
    while index < count
        invariant
            index <= count,
            count == payload.transactions@.len(),
            value == payload@,
            all == decodings@,
            all.len() == count,
            remaining@ == all.skip(index as int),
            forall|i: int|
                0 <= i < index ==> is_valid(validator@, #[trigger] value.transactions[i], all[i]),
        decreases count - index,
    {
        let decoding = remaining.remove(0);
        assert(decoding == all[index as int]);
        assert(remaining@ =~= all.skip(index + 1));
        assert(value.transactions[index as int] == payload.transactions@[index as int]@);
        match validator.validate(&payload.transactions[index], decoding) {
            Ok(_) => {},
            Err(error) => {
                assert(!is_valid(validator@, value.transactions[index as int], all[index as int]));
                let refusal = PipelineError::Lifecycle(error);
                assert(first_invalid(validator@, value, all, refusal, index as int));
                return Err(refusal);
            },
        }
        index += 1;
    }
    Ok(())
}

/// Of two groups that were last updated longest ago, both are the same.
proof fn lemma_stalest_unique(
    arrivals: Map<Hash256, u64>,
    incoming: Hash256,
    left: Hash256,
    right: Hash256,
)
    requires
        is_stalest(arrivals, incoming, left),
        is_stalest(arrivals, incoming, right),
    ensures
        left == right,
{
    if left != right {
        assert(arrivals.contains_key(left) && arrivals.contains_key(right));
        if left.precedes(right) && right.precedes(left) {
            Hash256::precedes_transitive(left, right, left);
            Hash256::precedes_irreflexive(left);
        }
    }
}

/// In a full buffer of some size there is a group to evict.
proof fn lemma_eviction(state: PipelineModel, incoming: Hash256)
    requires
        sound_pipeline(state),
    ensures
        state.capacity > 0 && !state.shreds.contains_key(incoming) && state.shreds.dom().len()
            >= state.capacity ==> exists|id: Hash256| #[trigger]
            state.shred_arrivals.contains_key(id) && id != incoming,
{
    if state.capacity > 0 && !state.shreds.contains_key(incoming) && state.shreds.dom().len()
        >= state.capacity {
        let id = state.shreds.dom().choose();
        assert(state.shreds.dom().contains(id));
        assert(state.shred_arrivals.dom().contains(id));
    }
}

/// The shred buffer stays bounded and never wedges: however full it is, a shred
/// that arrives finds a place in the group of its block, and the pipeline stays
/// sound.
pub proof fn law_shred_buffer_is_bounded(before: PipelineModel, shred: ShredModel)
    requires
        sound_pipeline(before),
        !no_room(before),
    ensures
        sound_pipeline(received(before, shred)),
        received(before, shred).shreds.contains_key(shred.block_id),
        received(before, shred).shreds[shred.block_id].contains_key(shred.index),
        received(before, shred).shreds.dom().len() <= before.capacity,
{
    let incoming = shred.block_id;
    let ready = with_room(before, incoming);
    let after = received(before, shred);
    let full = !before.shreds.contains_key(incoming) && before.shreds.dom().len()
        >= before.capacity;
    if full {
        lemma_eviction(before, incoming);
        lemma_stalest_exists(before.shred_arrivals, incoming);
        let evicted = stalest(before.shred_arrivals, incoming);
        assert(before.shred_arrivals.dom().contains(evicted));
        assert(before.shreds.dom().contains(evicted));
        assert(ready.shreds.dom() =~= before.shreds.dom().remove(evicted));
        assert(ready.shred_arrivals.dom() =~= before.shred_arrivals.dom().remove(evicted));
    }
    assert(after.shreds.dom() =~= ready.shreds.dom().insert(incoming));
    assert(after.shred_arrivals.dom() =~= ready.shred_arrivals.dom().insert(incoming));
}

/// Where some other group has arrived, one of them is the stalest.
proof fn lemma_stalest_exists(arrivals: Map<Hash256, u64>, incoming: Hash256)
    requires
        arrivals.dom().finite(),
        exists|id: Hash256| #[trigger] arrivals.contains_key(id) && id != incoming,
    ensures
        is_stalest(arrivals, incoming, stalest(arrivals, incoming)),
    decreases arrivals.dom().len(),
{
    let some = choose|id: Hash256| #[trigger] arrivals.contains_key(id) && id != incoming;
    let rest = arrivals.remove(some);
    assert(rest.dom() =~= arrivals.dom().remove(some));
    if exists|id: Hash256| #[trigger] rest.contains_key(id) && id != incoming {
        lemma_stalest_exists(rest, incoming);
        let least = stalest(rest, incoming);
        Hash256::precedes_total(some, least);
        let pick = if arrivals[some] < arrivals[least] || (arrivals[some] == arrivals[least]
            && some.precedes(least)) {
            some
        } else {
            least
        };
        assert forall|other: Hash256| #[trigger]
            arrivals.contains_key(other) && other != incoming && other != pick implies arrivals[pick]
            < arrivals[other] || (arrivals[pick] == arrivals[other] && pick.precedes(other)) by {
            if other != some && other != least {
                assert(rest.contains_key(other));
                if pick == some && some.precedes(least) && least.precedes(other) {
                    Hash256::precedes_transitive(some, least, other);
                }
            }
        }
        assert(is_stalest(arrivals, incoming, pick));
    } else {
        assert forall|other: Hash256| #[trigger]
            arrivals.contains_key(other) && other != incoming implies other == some by {
            if other != some {
                assert(rest.contains_key(other));
            }
        }
        assert(is_stalest(arrivals, incoming, some));
    }
}

/// The objects that references name.
fn collect_reference_ids(references: &[DeclaredObjectRef]) -> (ids: Vec<ObjectId>)
    ensures
        ids@ == referenced_ids(references@),
{
    let mut ids: Vec<ObjectId> = Vec::new();
    let mut index: usize = 0;
    assert(ids@ =~= referenced_ids(references@).take(0));
    while index < references.len()
        invariant
            index <= references@.len(),
            ids@ == referenced_ids(references@).take(index as int),
        decreases references@.len() - index,
    {
        ids.push(references[index].id);
        index += 1;
        assert(ids@ =~= referenced_ids(references@).take(index as int));
    }
    assert(ids@ =~= referenced_ids(references@));
    ids
}

} // verus!
