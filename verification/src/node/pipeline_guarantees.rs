//! What the steps of the pipeline guarantee together.

use vstd::prelude::*;

use crate::mempool::market::{
    block_of, picks, queue_of, queues_without, sound_market, sound_queue, submit_result, unlisted,
    with_pending, FeeQuote, FeeScope, MarketModel, PendingTransaction, PriorityFeePolicy, Queues,
};
use crate::node::lifecycle::{PayloadDecoding, SchemesModel};
use crate::node::payload::{block_encoding, ids_of, transaction_id, BlockModel};
use crate::node::pipeline::{PayloadSlot, PipelineError};
use crate::node::proposal_source::{
    admission_step, admitted, fits_state, market_took, moved_on, next_count, rebuilt, retired,
    rolled_back, sound_pipeline, Admission, AdmissionStep, PipelineModel,
};
use crate::node::stage2::{repair_step, DriverModel};
use crate::ordered::sorted_keys;
use crate::types::{hash_of, Hash256, TransactionModel};

verus! {

/// A sender has at most one uncommitted transaction stored.
pub proof fn law_one_transaction_per_sender(state: PipelineModel, left: Hash256, right: Hash256)
    requires
        sound_pipeline(state),
        state.transactions.contains_key(left),
        state.transactions.contains_key(right),
        state.transactions[left].sender == state.transactions[right].sender,
    ensures
        left == right,
{
}

/// A queue in which nothing is listed is left as it is.
proof fn lemma_filter_none(queue: Seq<PendingTransaction>, ids: Set<Hash256>)
    requires
        forall|i: int| 0 <= i < queue.len() ==> !ids.contains((#[trigger] queue[i]).transaction.id),
    ensures
        queue.filter(unlisted(ids)) == queue,
    decreases queue.len(),
{
    reveal(Seq::filter);
    if queue.len() > 0 {
        lemma_filter_none(queue.drop_last(), ids);
        assert(!ids.contains(queue[queue.len() - 1].transaction.id));
        assert(queue.drop_last().push(queue.last()) =~= queue);
    } else {
        assert(queue.filter(unlisted(ids)) =~= queue);
    }
}

/// A listed transaction that is put into a queue without any falls out again.
proof fn lemma_filter_inserted(
    queue: Seq<PendingTransaction>,
    position: int,
    pending: PendingTransaction,
    ids: Set<Hash256>,
)
    requires
        0 <= position <= queue.len(),
        ids.contains(pending.transaction.id),
        forall|i: int| 0 <= i < queue.len() ==> !ids.contains((#[trigger] queue[i]).transaction.id),
    ensures
        queue.insert(position, pending).filter(unlisted(ids)) == queue,
    decreases queue.len(),
{
    let longer = queue.insert(position, pending);
    if position == queue.len() {
        assert(longer.drop_last() =~= queue);
        assert(longer.last() == pending);
        lemma_filter_none(queue, ids);
        reveal(Seq::filter);
    } else {
        let shorter = queue.drop_last();
        assert(longer.drop_last() =~= shorter.insert(position, pending));
        assert(longer.last() == queue.last());
        assert(!ids.contains(queue[queue.len() - 1].transaction.id));
        lemma_filter_inserted(shorter, position, pending, ids);
        reveal(Seq::filter);
        assert(shorter.push(queue.last()) =~= queue);
    }
}

/// Removing a transaction that was just put into a market without it gives the
/// market's queues back.
proof fn lemma_queues_restored(
    market: MarketModel<PriorityFeePolicy>,
    pending: PendingTransaction,
    position: int,
)
    requires
        sound_market(market),
        0 <= position <= queue_of(market.queues, pending.transaction.scope).len(),
        !market.ids.contains(pending.transaction.id),
    ensures
        queues_without(
            with_pending(market, pending, position).queues,
            set![pending.transaction.id],
        ) == market.queues,
{
    let ids = set![pending.transaction.id];
    let scope = pending.transaction.scope;
    let queues = with_pending(market, pending, position).queues;
    let queue = queue_of(market.queues, scope);
    assert forall|i: int| 0 <= i < queue.len() implies !ids.contains(
        (#[trigger] queue[i]).transaction.id,
    ) by {
        assert(sound_queue(scope, market.queues[scope], market.ids));
    }
    lemma_filter_inserted(queue, position, pending, ids);
    let restored = queues_without(queues, ids);
    assert forall|other: FeeScope|
        #![trigger restored.dom().contains(other)]
        #![trigger restored[other]]
        restored.dom().contains(other) == market.queues.dom().contains(other) && (
        market.queues.dom().contains(other) ==> restored[other] == market.queues[other]) by {
        if other == scope {
            if market.queues.contains_key(scope) {
                assert(sound_queue(scope, market.queues[scope], market.ids));
            }
        } else if market.queues.contains_key(other) {
            assert(sound_queue(other, market.queues[other], market.ids));
            lemma_filter_none(market.queues[other], ids);
        }
    }
    assert(restored =~= market.queues);
}

/// Rolling an admission back undoes it: the pipeline is as it was before, but
/// for the number of arrivals.
pub proof fn law_rollback_undoes_admission(
    before: PipelineModel,
    after: PipelineModel,
    admission: Admission,
    quote: FeeQuote,
)
    requires
        sound_market(before.market),
        fits_state(before, admission),
        admission.submitted.id == admission.id,
        submit_result(before.market, admission.submitted) == Ok::<
            FeeQuote,
            crate::mempool::errors::MempoolError,
        >(quote),
        after == (PipelineModel { market: after.market, ..admitted(before, admission) }),
        market_took(before.market, after.market, admission.submitted, quote),
    ensures
        rolled_back(after, admission.id) == (PipelineModel {
            arrival_sequence: next_count(before.arrival_sequence),
            ..before
        }),
{
    let id = admission.id;
    let market = before.market;
    let pending = PendingTransaction {
        transaction: admission.submitted,
        local_base_fee_per_compute: quote.local_base_fee_per_compute,
    };
    let position = choose|position: int|
        0 <= position <= queue_of(market.queues, admission.submitted.scope).len() && after.market
            == #[trigger] with_pending(market, pending, position);
    lemma_queues_restored(market, pending, position);
    assert(after.market.ids.difference(set![id]) =~= market.ids);
    assert(after.transactions.remove(id) =~= before.transactions);
    assert(after.reserved_senders.remove(admission.transaction@.sender)
        =~= before.reserved_senders);
    assert(rolled_back(after, id) =~= (PipelineModel {
        arrival_sequence: next_count(before.arrival_sequence),
        ..before
    }));
}

/// What is picked stands in a queue.
proof fn lemma_picked_from_queue(
    scopes: Seq<FeeScope>,
    queues: Queues,
    limit: nat,
    round: nat,
    count: nat,
    index: int,
) -> (origin: (FeeScope, int))
    requires
        0 <= index < picks(scopes, queues, limit, round, count).len(),
    ensures
        queues.contains_key(origin.0),
        0 <= origin.1 < queues[origin.0].len(),
        picks(scopes, queues, limit, round, count)[index] == queues[origin.0][origin.1],
    decreases round, count,
{
    if count > 0 {
        let earlier = picks(scopes, queues, limit, round, (count - 1) as nat);
        if index < earlier.len() {
            lemma_picked_from_queue(scopes, queues, limit, round, (count - 1) as nat, index)
        } else {
            (scopes[count - 1], round as int)
        }
    } else {
        lemma_picked_from_queue(scopes, queues, limit, (round - 1) as nat, scopes.len(), index)
    }
}

/// Without some identifiers, no block is selected that has one of them.
proof fn lemma_not_selected(queues: Queues, ids: Set<Hash256>, limit: nat, maximum: nat, index: int)
    requires
        0 <= index < block_of(queues_without(queues, ids), limit, maximum).len(),
    ensures
        !ids.contains(
            block_of(queues_without(queues, ids), limit, maximum)[index].transaction.id,
        ),
{
    let left = queues_without(queues, ids);
    let origin = lemma_picked_from_queue(sorted_keys(left.dom()), left, limit, limit, 0, index);
    let queue = queues[origin.0];
    queue.lemma_filter_pred(unlisted(ids), origin.1);
}

/// The transactions of a submitted payload never come back: none is stored, none
/// is queued, and none is selected into a later block.
pub proof fn law_submitted_transactions_are_not_selected_again(
    state: PipelineModel,
    payload: BlockModel,
    id: Hash256,
    maximum: nat,
    index: int,
)
    requires
        ids_of(payload.transactions).contains(id),
    ensures
        !retired(state, payload).transactions.contains_key(id),
        !retired(state, payload).market.ids.contains(id),
        0 <= index < block_of(
            retired(state, payload).market.queues,
            retired(state, payload).market.limit as nat,
            maximum,
        ).len() ==> block_of(
            retired(state, payload).market.queues,
            retired(state, payload).market.limit as nat,
            maximum,
        )[index].transaction.id != id,
{
    let after = retired(state, payload);
    let ids = ids_of(payload.transactions).to_set();
    let queues = moved_on(state, payload.transactions).market.queues;
    assert(ids.contains(id));
    if 0 <= index < block_of(after.market.queues, after.market.limit as nat, maximum).len() {
        lemma_not_selected(queues, ids, after.market.limit as nat, maximum, index);
    }
}

/// After transactions moved on, the sender of each is expected to follow one
/// that stands at its place or later.
proof fn lemma_nonce_moved(state: PipelineModel, transactions: Seq<TransactionModel>, i: int) -> (k:
    int)
    requires
        0 <= i < transactions.len(),
        forall|j: int| 0 <= j < transactions.len() ==> (#[trigger] transactions[j]).nonce < u64::MAX,
    ensures
        i <= k < transactions.len(),
        transactions[k].sender == transactions[i].sender,
        moved_on(state, transactions).next_nonces.contains_key(transactions[i].sender),
        moved_on(state, transactions).next_nonces[transactions[i].sender] == transactions[k].nonce
            + 1,
    decreases transactions.len(),
{
    let last = transactions.len() - 1;
    if transactions[last].sender == transactions[i].sender {
        last
    } else {
        let shorter = transactions.drop_last();
        assert forall|j: int| 0 <= j < shorter.len() implies (#[trigger] shorter[j]).nonce
            < u64::MAX by {
            assert(shorter[j] == transactions[j]);
        }
        let k = lemma_nonce_moved(state, shorter, i);
        assert(shorter[k] == transactions[k]);
        k
    }
}

/// A transaction of a submitted payload is not admitted again: wherever the
/// payload orders each sender's transactions by nonce, its nonce is used up.
pub proof fn law_submitted_transactions_are_not_admitted_again(
    state: PipelineModel,
    payload: BlockModel,
    i: int,
    schemes: SchemesModel,
    decoding: PayloadDecoding,
    result: Result<AdmissionStep, PipelineError>,
)
    requires
        0 <= i < payload.transactions.len(),
        forall|j: int|
            0 <= j < payload.transactions.len() ==> (#[trigger] payload.transactions[j]).nonce
                < u64::MAX,
        forall|j: int|
            i <= j < payload.transactions.len() && (#[trigger] payload.transactions[j]).sender
                == payload.transactions[i].sender ==> payload.transactions[j].nonce
                >= payload.transactions[i].nonce,
        admission_step(
            retired(state, payload),
            schemes,
            payload.transactions[i],
            decoding,
            result,
        ),
    ensures
        result is Err,
{
    let transactions = payload.transactions;
    let after = retired(state, payload);
    let k = lemma_nonce_moved(state, transactions, i);
    let id = transaction_id(transactions[i]);
    assert(ids_of(transactions)[i] == id);
    assert(ids_of(transactions).contains(id));
    assert(ids_of(transactions).to_set().contains(id));
    assert(!after.transactions.contains_key(id));
    assert(transactions[k].nonce >= transactions[i].nonce);
}

/// Taking up a rebuilt payload keeps every other candidate, and the payload has
/// a slot of its own.
pub proof fn law_candidates_are_kept(
    state: PipelineModel,
    block_id: Hash256,
    payload: BlockModel,
    slot: PayloadSlot,
)
    ensures
        state.payloads.contains_key(slot) ==> rebuilt(state, block_id, payload).payloads.contains_key(
            slot,
        ) && rebuilt(state, block_id, payload).payloads[slot] == state.payloads[slot],
        rebuilt(state, block_id, payload).payloads.contains_key(
            PayloadSlot {
                height: payload.height,
                discriminator: hash_of(block_encoding(payload)),
            },
        ),
{
}

/// The backoff between asks never exceeds its cap once the first ask was made.
pub proof fn law_repair_backoff_is_capped(state: DriverModel, now_ms: u64)
    ensures
        repair_step(state, now_ms).0 is Some ==> repair_step(state, now_ms).1.repair_backoff_ms
            <= state.config.maximum_payload_repair_backoff_ms,
        repair_step(state, now_ms).0 is Some && state.repair_backoff_ms * 2
            <= state.config.maximum_payload_repair_backoff_ms ==> repair_step(
            state,
            now_ms,
        ).1.repair_backoff_ms == state.repair_backoff_ms * 2,
{
}

/// Between two asks for a payload, at least the backoff passes.
pub proof fn law_repair_waits_for_its_backoff(state: DriverModel, now_ms: u64, later_ms: u64)
    requires
        repair_step(state, now_ms).0 is Some,
        now_ms + state.config.maximum_payload_repair_backoff_ms <= u64::MAX,
        later_ms < now_ms + repair_step(state, now_ms).1.repair_backoff_ms,
    ensures
        repair_step(repair_step(state, now_ms).1, later_ms).0 is None,
{
}

} // verus!
