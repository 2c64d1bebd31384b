//! What the transaction pipeline is for: transactions wait where they cause congestion,
//! blocks are built of what waits, and orders find their payload.

use vstd::prelude::*;

use crate::consensus::proposals::fee_commitment_of;
use crate::mempool::errors::MempoolError;
use crate::mempool::guarantees::{
    accepts, becomes, is_rest_of, law_price_follows_the_scope, selects,
};
use crate::mempool::market::{
    block_of, fits_at, in_scope, law_block_is_full_and_fair, partitioned, queue_of, sound_market,
    submit_result, with_pending, FeeQuote, FeeScope, MarketModel, PendingTransaction,
    PriorityFeePolicy, SubmittedTransaction,
};
use crate::network::guarantees::law_plan_hands_each_shred_to_its_relays;
use crate::network::kestrel_cast::{
    at_most, follows, is_candidate, relay_choice, shred_models, shreds_of, RelayCandidate,
    RelayPlan, Shred, ShredModel,
};
use crate::network::service::{
    sent_as, GossipError, NetworkHandle, OutboundModel, OutboundShred, PeerBytes,
};
use crate::node::coordinator::ProposedOrder;
use crate::node::genesis::GenesisValidator;
use crate::node::lifecycle::{
    carried_payload, validation_refusal, PayloadDecoding, SchemesModel, TransactionValidator,
};
use crate::node::payload::{
    all_encodable, block_encoding, encodable, encodable_block, ids_of, transaction_id, BlockModel,
    PropagatedBlock,
};
use crate::node::pipeline::{is_stalest, PayloadSlot, PipelineError};
use crate::node::propagation::{
    carries_out, lower, outbound_models, propagated_as, propagation_planned, proposed,
    relay_candidates, send_models, sends_end, sends_of, sends_to, SendModel, SourceModel,
};
use crate::node::proposal_source::{
    admission_step, admitted, decides_order, first_slot, kept_for_repair, market_gave, market_took,
    moved_on, order_search, payload_asked, rebuilt, received, referenced_ids, retired, stalest,
    with_room, Admission, AdmissionStep, PipelineModel, PipelineState,
};
use crate::node::stage2::{advanced, peers_but, relays_of, repair_step, DriverModel};
use crate::ordered::{lemma_sorted_keys_of_finite, sorted_keys, strictly_sorted, SortKey};
use crate::types::{hash_of, Address, Hash256, ObjectId, Transaction, TransactionModel};

verus! {

/// An admitted transaction waits where it causes congestion: under the least of the
/// objects that it declares, and under its sender's account only where it declares none.
/// What the market prices is what its sender signed.
pub proof fn law_admitted_transaction_waits_on_its_least_object(
    state: PipelineModel,
    schemes: SchemesModel,
    transaction: TransactionModel,
    decoding: PayloadDecoding,
    admission: Admission,
)
    requires
        admission_step(
            state,
            schemes,
            transaction,
            decoding,
            Ok(AdmissionStep::Store(admission)),
        ),
    ensures
        carried_payload(decoding) is Ok,
        ({
            let payload = carried_payload(decoding).unwrap();
            let references = payload.executable.object_references@;
            let submitted = admission.submitted;
            &&& references.len() == 0 ==> submitted.scope == FeeScope::Account(transaction.sender)
            &&& references.len() > 0 ==> exists|i: int|
                {
                    &&& 0 <= i < references.len()
                    &&& submitted.scope == FeeScope::Object((#[trigger] references[i]).id)
                    &&& forall|j: int|
                        0 <= j < references.len() ==> (#[trigger] references[j]).id
                            == references[i].id || references[i].id.precedes(references[j].id)
                }
            &&& forall|id: ObjectId| #[trigger]
                submitted.touched_objects@.contains(id) <==> exists|i: int|
                    0 <= i < references.len() && (#[trigger] references[i]).id == id
            &&& submitted.id == transaction_id(transaction)
            &&& admission.id == submitted.id
            &&& submitted.sender == transaction.sender
            &&& submitted.compute_limit == payload.executable.compute_limit
            &&& submitted.max_fee_per_compute == payload.max_fee_per_compute
            &&& submitted.priority_fee_per_compute == payload.priority_fee_per_compute
            &&& submitted.arrival_sequence == state.arrival_sequence
            &&& submitted.policy_data@ == payload.policy_data
            &&& admission.transaction@ == transaction
        }),
{
    let payload = carried_payload(decoding).unwrap();
    assert(carried_payload(decoding) is Ok);
    let references = payload.executable.object_references@;
    let ids = referenced_ids(references);
    let touched = ids.to_set();
    assert(admission.submitted.touched_objects@ == touched);
    assert forall|id: ObjectId| #[trigger] touched.contains(id) <==> exists|i: int|
        0 <= i < references.len() && (#[trigger] references[i]).id == id by {
        if touched.contains(id) {
            let i = choose|i: int| 0 <= i < ids.len() && ids[i] == id;
            assert(references[i].id == id);
        }
        if exists|i: int| 0 <= i < references.len() && (#[trigger] references[i]).id == id {
            let i = choose|i: int| 0 <= i < references.len() && (#[trigger] references[i]).id == id;
            assert(ids[i] == id);
        }
    }
    if references.len() == 0 {
        assert(touched =~= Set::<ObjectId>::empty());
    } else {
        assert(touched.contains(references[0].id));
        vstd::seq_lib::seq_to_set_is_finite(ids);
        lemma_sorted_keys_of_finite(touched);
        let sorted = sorted_keys(touched);
        assert(sorted.contains(references[0].id));
        let least = sorted[0];
        assert(sorted.contains(least));
        let i = choose|i: int| 0 <= i < references.len() && (#[trigger] references[i]).id == least;
        assert forall|j: int| 0 <= j < references.len() implies (#[trigger] references[j]).id
            == references[i].id || references[i].id.precedes(references[j].id) by {
            assert(touched.contains(references[j].id));
            assert(sorted.contains(references[j].id));
            let k = choose|k: int| 0 <= k < sorted.len() && sorted[k] == references[j].id;
            if k > 0 {
                assert(sorted[0].precedes(sorted[k]));
            }
        }
        assert(admission.submitted.scope == FeeScope::Object(references[i].id));
    }
}

/// A hot object is priced: of two admitted transactions that declare the same single
/// object, the second is quoted one congestion increment more once the first waits, and
/// a transaction of an unrelated object or account is quoted as before.
pub proof fn law_hot_object_is_priced(
    state: PipelineModel,
    schemes: SchemesModel,
    first: TransactionModel,
    first_decoding: PayloadDecoding,
    early: Admission,
    later_state: PipelineModel,
    second: TransactionModel,
    second_decoding: PayloadDecoding,
    late: Admission,
    object: ObjectId,
    before: MarketModel<PriorityFeePolicy>,
    after: MarketModel<PriorityFeePolicy>,
    quote: FeeQuote,
    unrelated: SubmittedTransaction,
)
    requires
        admission_step(
            state,
            schemes,
            first,
            first_decoding,
            Ok(AdmissionStep::Store(early)),
        ),
        admission_step(
            later_state,
            schemes,
            second,
            second_decoding,
            Ok(AdmissionStep::Store(late)),
        ),
        referenced_ids(carried_payload(first_decoding)->Ok_0.executable.object_references@) == seq![
            object,
        ],
        referenced_ids(carried_payload(second_decoding)->Ok_0.executable.object_references@)
            == seq![object],
        submit_result(before, early.submitted) == Ok::<FeeQuote, MempoolError>(quote),
        market_took(before, after, early.submitted, quote),
    ensures
        early.submitted.scope == FeeScope::Object(object),
        late.submitted.scope == FeeScope::Object(object),
        submit_result(after, late.submitted) matches Ok(raised)
            ==> raised.local_base_fee_per_compute == quote.local_base_fee_per_compute
            + before.increment,
        unrelated.scope != FeeScope::Object(object) ==> (submit_result(before, unrelated) matches Ok(
            earlier,
        ) ==> (submit_result(after, unrelated) matches Ok(same)
            ==> same.local_base_fee_per_compute == earlier.local_base_fee_per_compute)),
{
    law_admitted_transaction_waits_on_its_least_object(
        state,
        schemes,
        first,
        first_decoding,
        early,
    );
    law_admitted_transaction_waits_on_its_least_object(
        later_state,
        schemes,
        second,
        second_decoding,
        late,
    );
    let one = carried_payload(first_decoding)->Ok_0.executable.object_references@;
    let two = carried_payload(second_decoding)->Ok_0.executable.object_references@;
    assert(one.len() == referenced_ids(one).len() && two.len() == referenced_ids(two).len());
    assert(referenced_ids(one)[0] == object && referenced_ids(two)[0] == object);
    law_price_follows_the_scope(before, early.submitted);
    law_price_follows_the_scope(after, late.submitted);
    law_price_follows_the_scope(before, unrelated);
    law_price_follows_the_scope(after, unrelated);
    let scope = FeeScope::Object(object);
    let waiting = queue_of(before.queues, scope).len();
    assert(queue_of(after.queues, scope).len() == waiting + 1);
    let increment = before.increment as int;
    assert(increment * (waiting + 1) == increment * waiting + increment) by (nonlinear_arith);
}

/// What the pipeline takes up, the market accepts at a place that the rule of its scope
/// allows, so that the waiting transactions stay in the order of that rule.
pub proof fn law_pipeline_keeps_the_order_of_queues(
    before: MarketModel<PriorityFeePolicy>,
    after: MarketModel<PriorityFeePolicy>,
    submitted: SubmittedTransaction,
    quote: FeeQuote,
)
    requires
        market_took(before, after, submitted, quote),
    ensures
        becomes(before, after),
        queue_of(after.queues, submitted.scope).len() == queue_of(
            before.queues,
            submitted.scope,
        ).len() + 1,
        after.ids.contains(submitted.id),
        after.policies == before.policies,
{
    let pending = PendingTransaction {
        transaction: submitted,
        local_base_fee_per_compute: quote.local_base_fee_per_compute,
    };
    let position = choose|position: int|
        {
            let queue = queue_of(before.queues, submitted.scope);
            &&& 0 <= position <= queue.len()
            &&& after == #[trigger] with_pending(before, pending, position)
            &&& partitioned(before.policies, submitted.scope, queue, pending) ==> fits_at(
                before.policies,
                submitted.scope,
                queue,
                pending,
                position,
            )
        };
    assert(accepts(before, after, pending, position));
}

/// A transaction is taken up exactly where it is valid, can be encoded, is at its
/// sender's next nonce, and neither it nor another one of its sender waits already.
pub proof fn law_pipeline_takes_valid_new_transactions(
    state: PipelineModel,
    schemes: SchemesModel,
    transaction: TransactionModel,
    decoding: PayloadDecoding,
    result: Result<AdmissionStep, PipelineError>,
)
    requires
        admission_step(state, schemes, transaction, decoding, result),
    ensures
        result matches Ok(AdmissionStep::Store(_)) <==> {
            &&& validation_refusal(schemes, transaction, decoding) is None
            &&& encodable(transaction)
            &&& !state.transactions.contains_key(transaction_id(transaction))
            &&& !state.reserved_senders.contains_key(transaction.sender)
            &&& transaction.nonce == if state.next_nonces.contains_key(transaction.sender) {
                state.next_nonces[transaction.sender]
            } else {
                0
            }
        },
        result matches Ok(AdmissionStep::Known(id)) ==> id == transaction_id(transaction)
            && state.transactions.contains_key(id),
{
}

/// A block that is built is of what waits: its transactions are stored ones that the
/// market selects, in that order, each with the base fee that was fixed when it was
/// accepted, and as many as fit.
pub proof fn law_built_payload_is_what_the_market_selects(
    before: PipelineModel,
    after: PipelineModel,
    height: u64,
    parent_id: Hash256,
    maximum: usize,
    payload: PropagatedBlock,
    scopes: Seq<FeeScope>,
    i: int,
)
    requires
        sound_market(before.market),
        strictly_sorted(scopes),
        scopes.to_set() == before.market.queues.dom(),
        !before.payloads.contains_key(PayloadSlot { height, discriminator: parent_id }),
        payload_asked(before, after, height, parent_id, maximum, Ok(payload)),
        0 <= i < payload@.transactions.len(),
    ensures
        payload@.height == height,
        payload@.parent_id == parent_id,
        payload@.base_fees.len() == payload@.transactions.len() <= maximum,
        exists|scope: FeeScope, k: int|
            {
                let waiting = #[trigger] queue_of(before.market.queues, scope)[k];
                &&& 0 <= k < queue_of(before.market.queues, scope).len()
                &&& k < before.market.limit
                &&& before.transactions.contains_key(waiting.transaction.id)
                &&& payload@.transactions[i] == before.transactions[waiting.transaction.id]
                &&& payload@.base_fees[i] == waiting.local_base_fee_per_compute
            },
        payload@.transactions.len() < maximum ==> forall|scope: FeeScope|
            ({
                let left = (#[trigger] queue_of(after.market.queues, scope)).len();
                let waiting = queue_of(before.market.queues, scope).len();
                left == 0 || waiting - left == before.market.limit
            }),
        height <= before.retired_height + 1 || before.retired_height == u64::MAX,
{
    let picked = block_of(
        before.market.queues,
        before.market.limit as nat,
        maximum as nat,
    );
    let pending = picked[i];
    let scope = pending.transaction.scope;
    law_block_is_full_and_fair(before.market, scopes, maximum as nat, scope, scope);
    let part = picked.filter(in_scope(scope));
    let queue = queue_of(before.market.queues, scope);
    picked.lemma_filter_contains(in_scope(scope), i);
    assert(part.contains(pending));
    let k = choose|k: int| 0 <= k < part.len() && part[k] == pending;
    assert(queue.take(part.len() as int)[k] == pending);
    assert(queue_of(before.market.queues, scope)[k] == pending);
    assert(before.transactions.contains_key(pending.transaction.id));
    if payload@.transactions.len() < maximum {
        assert forall|other: FeeScope|
            ({
                let left = (#[trigger] queue_of(after.market.queues, other)).len();
                let waiting = queue_of(before.market.queues, other).len();
                left == 0 || waiting - left == before.market.limit
            }) by {
            law_block_is_full_and_fair(before.market, scopes, maximum as nat, other, other);
            assert(queue_of(before.market.queues, other) == picked.filter(in_scope(other))
                + queue_of(after.market.queues, other));
        }
    }
}

/// An order finds the payload that it names, where one is held and every held payload of
/// its height can be encoded, and finds nothing else.
pub proof fn law_order_finds_its_payload(
    state: PipelineModel,
    height: u64,
    ids: Seq<Hash256>,
    fee_commitment: Hash256,
    result: Result<Option<PropagatedBlock>, PipelineError>,
    slot: PayloadSlot,
)
    requires
        order_search(state, height, ids, fee_commitment, result),
        state.payloads.dom().finite(),
    ensures
        result matches Ok(Some(payload)) ==> {
            &&& ids_of(payload@.transactions) == ids
            &&& fee_commitment_of(payload@.base_fees) == fee_commitment
            &&& exists|held: PayloadSlot| #[trigger]
                state.payloads.contains_key(held) && held.height == height && state.payloads[held]
                    == payload@
        },
        state.payloads.contains_key(slot) && slot.height == height && ids_of(
            state.payloads[slot].transactions,
        ) == ids && fee_commitment_of(state.payloads[slot].base_fees) == fee_commitment && (forall|
            other: PayloadSlot,
        | #[trigger]
            state.payloads.contains_key(other) && other.height == height ==> all_encodable(
                state.payloads[other].transactions,
            )) ==> result matches Ok(Some(_)),
{
    let wanted = decides_order(state.payloads, height, ids, fee_commitment);
    let slots = sorted_keys(state.payloads.dom());
    lemma_sorted_keys_of_finite(state.payloads.dom());
    lemma_first_slot(slots, wanted, slot);
    if let Some(found) = first_slot(slots, wanted) {
        assert(slots.contains(found));
        assert(state.payloads.contains_key(found));
    }
    if state.payloads.contains_key(slot) {
        assert(slots.contains(slot));
    }
}

/// The first slot that is wanted is one of the slots, and there is one where any is wanted.
pub proof fn lemma_first_slot(
    slots: Seq<PayloadSlot>,
    wanted: spec_fn(PayloadSlot) -> bool,
    slot: PayloadSlot,
)
    ensures
        first_slot(slots, wanted) matches Some(found) ==> slots.contains(found) && wanted(found),
        slots.contains(slot) && wanted(slot) ==> first_slot(slots, wanted) is Some,
    decreases slots.len(),
{
    if slots.len() > 0 {
        let rest = slots.skip(1);
        lemma_first_slot(rest, wanted, slot);
        assert(slots.contains(slots[0]));
        if slots.contains(slot) && slot != slots[0] {
            let k = choose|k: int| 0 <= k < slots.len() && slots[k] == slot;
            assert(rest[k - 1] == slot);
        }
        if let Some(found) = first_slot(rest, wanted) {
            if rest.contains(found) {
                let k = choose|k: int| 0 <= k < rest.len() && rest[k] == found;
                assert(slots[k + 1] == found);
            }
        }
    }
}

/// Once a payload is submitted, its senders go on at the nonce after it, nothing of it
/// waits or is stored any longer, payloads up to its height are no longer proposed, and
/// it is kept for peers that lag.
pub proof fn law_submitted_payload_is_retired(
    state: PipelineModel,
    payload: BlockModel,
    i: int,
)
    requires
        0 <= i < payload.transactions.len(),
        payload.transactions[i].nonce < u64::MAX,
        forall|j: int|
            i < j < payload.transactions.len() ==> (#[trigger] payload.transactions[j]).sender
                != payload.transactions[i].sender,
        state.recent_payloads.dom().finite(),
        state.recent_payloads.dom().len() < 64,
    ensures
        ({
            let after = retired(state, payload);
            let sender = payload.transactions[i].sender;
            &&& after.next_nonces.contains_key(sender)
            &&& after.next_nonces[sender] == payload.transactions[i].nonce + 1
            &&& !after.reserved_senders.contains_key(sender)
            &&& !after.transactions.contains_key(transaction_id(payload.transactions[i]))
            &&& !after.market.ids.contains(transaction_id(payload.transactions[i]))
            &&& forall|slot: PayloadSlot| #[trigger]
                after.payloads.contains_key(slot) ==> slot.height > payload.height
            &&& forall|slot: PayloadSlot| #[trigger]
                after.propagated.contains(slot) <==> state.propagated.contains(slot)
                    && slot.height > payload.height
            &&& state.reserved_senders.contains_key(sender) ==> !after.transactions.contains_key(
                state.reserved_senders[sender],
            )
            &&& after.retired_height >= payload.height
            &&& after.retired_height >= state.retired_height
            &&& after.retired_height == payload.height || after.retired_height
                == state.retired_height
            &&& after.recent_payloads.contains_key(payload.height)
            &&& after.recent_payloads[payload.height] == payload
        }),
{
    let ids = ids_of(payload.transactions);
    let id = transaction_id(payload.transactions[i]);
    assert(ids[i] == id);
    assert(ids.to_set().contains(id));
    lemma_moved_on(state, payload.transactions, i);
    lemma_moved_on_keeps(state, payload.transactions);
    lemma_moved_on_releases(state, payload.transactions, payload.transactions[i].sender);
    let recent = state.recent_payloads.insert(payload.height, payload);
    assert(recent.dom() =~= state.recent_payloads.dom().insert(payload.height));
}

proof fn lemma_moved_on_keeps(state: PipelineModel, transactions: Seq<TransactionModel>)
    ensures
        ({
            let after = moved_on(state, transactions);
            &&& after.recent_payloads == state.recent_payloads
            &&& after.retired_height == state.retired_height
            &&& after.payloads == state.payloads
            &&& after.propagated == state.propagated
            &&& after.market == state.market
        }),
    decreases transactions.len(),
{
    if transactions.len() > 0 {
        lemma_moved_on_keeps(state, transactions.drop_last());
    }
}

proof fn lemma_moved_on_releases(
    state: PipelineModel,
    transactions: Seq<TransactionModel>,
    sender: Address,
)
    ensures
        ({
            let after = moved_on(state, transactions);
            let listed = exists|i: int|
                0 <= i < transactions.len() && (#[trigger] transactions[i]).sender == sender;
            &&& !listed ==> (after.reserved_senders.contains_key(sender)
                <==> state.reserved_senders.contains_key(sender))
            &&& !listed && state.reserved_senders.contains_key(sender)
                ==> after.reserved_senders[sender] == state.reserved_senders[sender]
            &&& listed && state.reserved_senders.contains_key(sender)
                ==> !after.transactions.contains_key(state.reserved_senders[sender])
        }),
    decreases transactions.len(),
{
    if transactions.len() > 0 {
        let shorter = transactions.drop_last();
        lemma_moved_on_releases(state, shorter, sender);
        if exists|i: int| 0 <= i < shorter.len() && (#[trigger] shorter[i]).sender == sender {
            let i = choose|i: int|
                0 <= i < shorter.len() && (#[trigger] shorter[i]).sender == sender;
            assert(transactions[i].sender == sender);
        }
        if exists|i: int|
            0 <= i < transactions.len() && (#[trigger] transactions[i]).sender == sender {
            let i = choose|i: int|
                0 <= i < transactions.len() && (#[trigger] transactions[i]).sender == sender;
            if i < shorter.len() {
                assert(shorter[i].sender == sender);
            }
        } else {
            assert(transactions[transactions.len() - 1].sender != sender);
        }
    }
}

proof fn lemma_moved_on(state: PipelineModel, transactions: Seq<TransactionModel>, i: int)
    requires
        0 <= i < transactions.len(),
        transactions[i].nonce < u64::MAX,
        forall|j: int|
            i < j < transactions.len() ==> (#[trigger] transactions[j]).sender
                != transactions[i].sender,
    ensures
        ({
            let after = moved_on(state, transactions);
            let sender = transactions[i].sender;
            &&& after.next_nonces.contains_key(sender)
            &&& after.next_nonces[sender] == transactions[i].nonce + 1
            &&& !after.reserved_senders.contains_key(sender)
        }),
    decreases transactions.len(),
{
    let last = transactions.len() - 1;
    if i < last {
        let shorter = transactions.drop_last();
        assert forall|j: int| i < j < shorter.len() implies (#[trigger] shorter[j]).sender
            != shorter[i].sender by {
            assert(shorter[j] == transactions[j]);
        }
        lemma_moved_on(state, shorter, i);
        assert(transactions[last].sender != transactions[i].sender);
    }
}

/// A received shred is kept with the shreds of its block, unless one of its index is
/// there already, and it is counted.
pub proof fn law_received_shred_is_kept(state: PipelineModel, shred: ShredModel)
    requires
        state.shreds_received < u64::MAX,
    ensures
        ({
            let after = received(state, shred);
            let group = after.shreds[shred.block_id];
            &&& after.shreds.contains_key(shred.block_id)
            &&& group.contains_key(shred.index)
            &&& (!state.shreds.contains_key(shred.block_id)
                || !state.shreds[shred.block_id].contains_key(shred.index)) && (
            state.shreds.contains_key(shred.block_id) || state.shreds.dom().len() < state.capacity)
                ==> group[shred.index] == shred
            &&& state.shreds.contains_key(shred.block_id) ==> forall|index: u16| #[trigger]
                state.shreds[shred.block_id].contains_key(index) ==> group.contains_key(index)
                    && group[index] == state.shreds[shred.block_id][index]
            &&& after.shreds_received == state.shreds_received + 1
            &&& after.payloads == state.payloads
            &&& after.transactions == state.transactions
            &&& after.market == state.market
        }),
{
}

/// A shred goes on to every peer but the node itself and the peer that sent it, to each
/// once, and none of them is asked to relay it.
pub proof fn law_relay_reaches_all_others(
    peers: Seq<Seq<u8>>,
    local: Seq<u8>,
    source: Seq<u8>,
    shred: ShredModel,
    peer: Seq<u8>,
)
    ensures
        peers_but(peers, local, source).contains(peer) <==> peers.contains(peer) && peer != local
            && peer != source,
        peers.no_duplicates() ==> peers_but(peers, local, source).no_duplicates(),
        relays_of(peers_but(peers, local, source), shred).len() == peers_but(
            peers,
            local,
            source,
        ).len(),
        forall|i: int|
            0 <= i < peers_but(peers, local, source).len() ==> {
                let send = #[trigger] relays_of(peers_but(peers, local, source), shred)[i];
                &&& send.peer == peers_but(peers, local, source)[i]
                &&& send.shred == shred
                &&& !send.relay_requested
            },
    decreases peers.len(),
{
    if peers.len() > 0 {
        let shorter = peers.drop_last();
        let last = peers.last();
        law_relay_reaches_all_others(shorter, local, source, shred, peer);
        law_relay_reaches_all_others(shorter, local, source, shred, last);
        let earlier = peers_but(shorter, local, source);
        let all = peers_but(peers, local, source);
        assert(peers.contains(peer) <==> shorter.contains(peer) || peer == last) by {
            if shorter.contains(peer) {
                let k = choose|k: int| 0 <= k < shorter.len() && shorter[k] == peer;
                assert(peers[k] == peer);
            }
            assert(peers[peers.len() - 1] == last);
            if peers.contains(peer) && peer != last {
                let k = choose|k: int| 0 <= k < peers.len() && peers[k] == peer;
                assert(shorter[k] == peer);
            }
        }
        if !(last == local || last == source) {
            assert(all == earlier.push(last));
            assert(all.contains(peer) <==> earlier.contains(peer) || peer == last) by {
                if earlier.contains(peer) {
                    let k = choose|k: int| 0 <= k < earlier.len() && earlier[k] == peer;
                    assert(all[k] == peer);
                }
                assert(all[earlier.len() as int] == last);
                if all.contains(peer) && peer != last {
                    let k = choose|k: int| 0 <= k < all.len() && all[k] == peer;
                    assert(earlier[k] == peer);
                }
            }
        }
        if peers.no_duplicates() {
            assert(!shorter.contains(last)) by {
                if shorter.contains(last) {
                    let k = choose|k: int| 0 <= k < shorter.len() && shorter[k] == last;
                    assert(peers[k] == peers[peers.len() - 1]);
                }
            }
            assert(shorter.no_duplicates());
            assert(!earlier.contains(last));
        }
    }
}

/// Relays are drawn from all validators but those behind the node itself, each with its
/// own stake, in the order of genesis.
pub proof fn law_candidates_are_the_other_validators(
    validators: Seq<GenesisValidator>,
    peers: Map<Hash256, PeerBytes>,
    local: Seq<u8>,
    id: Hash256,
    stake: u64,
)
    ensures
        relay_candidates(validators, peers, local).contains(RelayCandidate { id, stake })
            <==> exists|i: int|
            0 <= i < validators.len() && (#[trigger] validators[i]).validator.id == id
                && validators[i].validator.stake == stake && peers[id]@ != local,
        relay_candidates(validators, peers, local).len() <= validators.len(),
    decreases validators.len(),
{
    let candidate = RelayCandidate { id, stake };
    if validators.len() > 0 {
        let shorter = validators.drop_last();
        let last = validators.last().validator;
        law_candidates_are_the_other_validators(shorter, peers, local, id, stake);
        let earlier = relay_candidates(shorter, peers, local);
        let all = relay_candidates(validators, peers, local);
        let fits = |list: Seq<GenesisValidator>, i: int|
            0 <= i < list.len() && list[i].validator.id == id && list[i].validator.stake == stake
                && peers[id]@ != local;
        if exists|i: int|
            0 <= i < shorter.len() && (#[trigger] shorter[i]).validator.id == id
                && shorter[i].validator.stake == stake && peers[id]@ != local {
            let i = choose|i: int|
                0 <= i < shorter.len() && (#[trigger] shorter[i]).validator.id == id
                    && shorter[i].validator.stake == stake && peers[id]@ != local;
            assert(validators[i] == shorter[i]);
        }
        if exists|i: int|
            0 <= i < validators.len() && (#[trigger] validators[i]).validator.id == id
                && validators[i].validator.stake == stake && peers[id]@ != local {
            let i = choose|i: int|
                0 <= i < validators.len() && (#[trigger] validators[i]).validator.id == id
                    && validators[i].validator.stake == stake && peers[id]@ != local;
            if i < shorter.len() {
                assert(shorter[i] == validators[i]);
            }
        }
        if earlier.contains(candidate) {
            let k = choose|k: int| 0 <= k < earlier.len() && earlier[k] == candidate;
            assert(all[k] == candidate);
        }
        if peers[last.id]@ != local {
            assert(all[earlier.len() as int] == (RelayCandidate { id: last.id, stake: last.stake }));
            if all.contains(candidate) {
                let k = choose|k: int| 0 <= k < all.len() && all[k] == candidate;
                if k < earlier.len() {
                    assert(earlier[k] == candidate);
                } else {
                    assert(validators[validators.len() - 1].validator.id == id);
                }
            }
        }
    }
}

/// Orders are submitted height by height: once the next one is done, the pipeline waits
/// for the one after it and has forgotten no other.
pub proof fn law_pipeline_advances_by_one(state: DriverModel, other: u64)
    requires
        state.submitted_height < u64::MAX,
    ensures
        advanced(state).submitted_height == state.submitted_height + 1,
        advanced(state).pending.contains_key(other) <==> state.pending.contains_key(other) && other
            != state.submitted_height + 1,
        other != state.submitted_height + 1 && state.pending.contains_key(other) ==> advanced(
            state,
        ).pending[other] == state.pending[other],
        advanced(state).peers == state.peers,
        advanced(state).offenses == state.offenses,
        advanced(state).repair_after_ms is None,
{
}

/// A missing payload is asked for only where the order of the next height is there, for
/// exactly that height, and not before the deadline.
pub proof fn law_repair_asks_for_the_next_height(state: DriverModel, now_ms: u64)
    requires
        state.submitted_height < u64::MAX,
    ensures
        repair_step(state, now_ms).0 matches Some(height) <==> {
            &&& state.pending.contains_key((state.submitted_height + 1) as u64)
            &&& state.repair_after_ms matches Some(deadline) && now_ms >= deadline
        },
        repair_step(state, now_ms).0 matches Some(height) ==> height == state.submitted_height + 1,
        repair_step(state, now_ms).1.pending == state.pending,
        repair_step(state, now_ms).1.submitted_height == state.submitted_height,
{
}

/// What the source offers for a block is what it holds: a payload of the asked height
/// and parent stays behind whose transactions and fees are the offered ones, and an
/// order for them finds such a payload where every candidate of the height can be
/// encoded. It was handed to the network, unless it had been before or nobody is there.
pub proof fn law_source_offers_what_it_holds(
    source: SourceModel,
    network: &NetworkHandle,
    before: PipelineModel,
    after: PipelineModel,
    height: u64,
    parent_id: Hash256,
    order: ProposedOrder,
    found: Result<Option<PropagatedBlock>, PipelineError>,
)
    requires
        before.payloads.dom().finite(),
        proposed(source, network, before, after, height, parent_id, Some(order)),
        order_search(after, height, order.transaction_ids@, order.fee_commitment, found),
        forall|other: PayloadSlot| #[trigger]
            after.payloads.contains_key(other) && other.height == height ==> all_encodable(
                after.payloads[other].transactions,
            ),
    ensures
        ({
            let slot = PayloadSlot { height, discriminator: parent_id };
            &&& after.payloads.contains_key(slot)
            &&& after.payloads[slot].transactions.len() == order.transaction_ids@.len()
            &&& forall|i: int|
                0 <= i < order.transaction_ids@.len() ==> #[trigger] order.transaction_ids@[i]
                    == transaction_id(after.payloads[slot].transactions[i])
            &&& fee_commitment_of(after.payloads[slot].base_fees) == order.fee_commitment
            &&& after.propagated.contains(slot)
            &&& !before.payloads.contains_key(slot) ==> after.payloads[slot].height == height
                && after.payloads[slot].parent_id == parent_id
        }),
        found matches Ok(Some(payload)) && ids_of(payload@.transactions) == order.transaction_ids@
            && fee_commitment_of(payload@.base_fees) == order.fee_commitment,
{
    let slot = PayloadSlot { height, discriminator: parent_id };
    let maximum = source.config.maximum_block_transactions;
    let (built, result) = choose|built: PipelineModel, result: Result<PropagatedBlock, PipelineError>|
        {
            &&& #[trigger] payload_asked(before, built, height, parent_id, maximum, result)
            &&& match result {
                Err(_) => false,
                Ok(payload) => exists|sent: Result<(), PipelineError>|
                    {
                        &&& #[trigger] propagated_as(
                            source,
                            network,
                            built,
                            after,
                            slot,
                            payload@,
                            sent,
                        )
                        &&& sent is Ok && all_encodable(payload@.transactions)
                        &&& order.transaction_ids@ == ids_of(payload@.transactions)
                        &&& order.fee_commitment == fee_commitment_of(payload@.base_fees)
                    },
            }
        };
    let payload = result.unwrap();
    assert(built.payloads.contains_key(slot) && built.payloads[slot] == payload@);
    assert(after.payloads == built.payloads);
    if !before.payloads.contains_key(slot) {
        assert(built.payloads.dom() =~= before.payloads.dom().insert(slot));
    }
    assert(built.payloads.dom().finite());
    law_order_finds_its_payload(
        after,
        height,
        order.transaction_ids@,
        order.fee_commitment,
        found,
        slot,
    );
}

/// A planned propagation leaves no shred of the block out: each goes to the peer of every
/// relay that the plan gives it to, goes nowhere else, and asks to be relayed.
pub proof fn law_propagation_sends_every_shred(
    source: SourceModel,
    payload: BlockModel,
    sends: Vec<OutboundShred>,
    i: int,
)
    requires
        propagation_planned(source, payload, Ok(sends)),
        0 <= i < source.config.kestrel_cast.data_shards + source.config.kestrel_cast.parity_shards,
    ensures
        encodable_block(payload),
        exists|plan: RelayPlan| #[trigger] delivers(source, payload, plan, sends, i),
        forall|k: int| 0 <= k < sends@.len() ==> (#[trigger] sends@[k]).relay_requested,
{
    let data = source.config.kestrel_cast.data_shards as nat;
    let parity = source.config.kestrel_cast.parity_shards as nat;
    let shreds = shreds_of(block_encoding(payload), data, parity);
    let plan = choose|plan: RelayPlan| #[trigger]
        carries_out(source, payload, plan, send_models(sends@));
    let relays = plan.relays@;
    let models = send_models(sends@);
    let keys = sorted_keys(plan.assignments@.dom());
    assert(shreds.len() == data + parity);
    let count = lower(source.config.relay_count, source.candidates.len());
    let sorted = choose|sorted: Seq<RelayCandidate>|
        follows(
            plan,
            (#[trigger] relay_choice(shreds[0].block_id@, sorted, count as nat)).relays,
            shreds,
            at_most(source.config.replication_factor as nat, relays.len()),
        );
    assert(plan.assignments@.dom() == relays.to_set());
    vstd::seq_lib::seq_to_set_is_finite(relays);
    lemma_sorted_keys_of_finite(plan.assignments@.dom());
    assert forall|a: int, b: int| #![trigger shreds[a], shreds[b]]
        0 <= a < b < shreds.len() implies shreds[a] != shreds[b] by {
        assert(shreds[a].index == a && shreds[b].index == b);
    }
    assert forall|k: int| 0 <= k < relays.len() implies is_handed_to(
        source,
        sends,
        shreds[i],
        #[trigger] relays[k],
    ) == turn_comes(i, k, relays.len() as int, source.config.replication_factor as int) || !(
    forall|other: int|
        0 <= other < relays.len() && other != k ==> source.peers[#[trigger] relays[other]]@
            != source.peers[relays[k]]@) by {
        law_plan_hands_each_shred_to_its_relays(
            shreds[0].block_id,
            shreds,
            source.candidates,
            count,
            source.config.replication_factor,
            plan,
            i,
            k,
        );
        let peer = source.peers[relays[k]]@;
        lemma_sends_of(keys, plan.assignments@, source.peers, peer, shreds[i]);
        lemma_handed(source, sends, shreds[i], relays[k]);
        assert(relays.to_set().contains(relays[k]));
        assert(keys.contains(relays[k]));
        if is_handed_to(source, sends, shreds[i], relays[k]) {
            let relay = choose|relay: Hash256| #[trigger]
                keys.contains(relay) && source.peers[relay]@ == peer && shred_models(
                    plan.assignments@[relay]@,
                ).contains(shreds[i]);
            assert(relays.to_set().contains(relay));
            let other = choose|other: int| 0 <= other < relays.len() && relays[other] == relay;
            assert(relays[other] == relay);
        }
    }
    assert forall|k: int| 0 <= k < sends@.len() implies goes_to_one_of(
        source,
        relays,
        (#[trigger] sends@[k]).peer@,
    ) by {
        let send = models[k];
        assert(send == (SendModel { peer: sends@[k].peer@, shred: sends@[k].shred@ }));
        assert(models.contains(send));
        lemma_sends_of(keys, plan.assignments@, source.peers, send.peer, send.shred);
        let relay = choose|relay: Hash256| #[trigger]
            keys.contains(relay) && source.peers[relay]@ == send.peer && shred_models(
                plan.assignments@[relay]@,
            ).contains(send.shred);
        assert(relays.to_set().contains(relay));
        let r = choose|r: int| 0 <= r < relays.len() && relays[r] == relay;
        assert(relays[r] == relay);
    }
    assert forall|k: int| 0 <= k < relays.len() implies is_other_validator(
        source,
        #[trigger] relays[k],
    ) by {
        assert(is_candidate(source.candidates, relays[k]));
    }
    assert(delivers(source, payload, plan, sends, i));
}

/// Whether a shred is among the sends to the peer of a relay.
pub open spec fn is_handed_to(
    source: SourceModel,
    sends: Vec<OutboundShred>,
    shred: ShredModel,
    relay: Hash256,
) -> bool {
    exists|k: int|
        0 <= k < sends@.len() && (#[trigger] sends@[k]).shred@ == shred && sends@[k].peer@
            == source.peers[relay]@
}

/// Whether a relay is one of the other validators.
pub open spec fn is_other_validator(source: SourceModel, relay: Hash256) -> bool {
    exists|c: int| 0 <= c < source.candidates.len() && (#[trigger] source.candidates[c]).id == relay
}

/// Whether a peer is the one behind a relay.
pub open spec fn goes_to_one_of(source: SourceModel, relays: Seq<Hash256>, peer: Seq<u8>) -> bool {
    exists|r: int| 0 <= r < relays.len() && source.peers[#[trigger] relays[r]]@ == peer
}

/// Whether it is the turn of the relay at `position` to hold the shred at `index`: the
/// relays take turns, and each shred goes to as many of them in a row as there are copies.
pub open spec fn turn_comes(index: int, position: int, relays: int, copies: int) -> bool {
    exists|copy: int|
        0 <= copy < copies && copy < relays && position == #[trigger] ((index + copy) % relays)
}

/// Whether the sends of a block take a shred to the relays of a plan whose turn it is,
/// where each relay has a peer of its own, and go to relays of the plan only.
pub open spec fn delivers(
    source: SourceModel,
    payload: BlockModel,
    plan: RelayPlan,
    sends: Vec<OutboundShred>,
    i: int,
) -> bool {
    let relays = plan.relays@;
    let shreds = shreds_of(
        block_encoding(payload),
        source.config.kestrel_cast.data_shards as nat,
        source.config.kestrel_cast.parity_shards as nat,
    );
    &&& relays.no_duplicates()
    &&& relays.len() == if source.config.relay_count < source.candidates.len() {
        source.config.relay_count as nat
    } else {
        source.candidates.len()
    }
    &&& forall|k: int| 0 <= k < relays.len() ==> is_other_validator(source, #[trigger] relays[k])
    &&& forall|k: int|
        0 <= k < relays.len() && (forall|other: int|
            0 <= other < relays.len() && other != k ==> source.peers[#[trigger] relays[other]]@
                != source.peers[relays[k]]@) ==> (is_handed_to(
            source,
            sends,
            shreds[i],
            #[trigger] relays[k],
        ) <==> turn_comes(i, k, relays.len() as int, source.config.replication_factor as int))
    &&& forall|k: int|
        0 <= k < sends@.len() ==> goes_to_one_of(source, relays, (#[trigger] sends@[k]).peer@)
}

proof fn lemma_handed(
    source: SourceModel,
    sends: Vec<OutboundShred>,
    shred: ShredModel,
    relay: Hash256,
)
    ensures
        is_handed_to(source, sends, shred, relay) <==> send_models(sends@).contains(
            SendModel { peer: source.peers[relay]@, shred },
        ),
{
    let models = send_models(sends@);
    let wanted = SendModel { peer: source.peers[relay]@, shred };
    if is_handed_to(source, sends, shred, relay) {
        let k = choose|k: int|
            0 <= k < sends@.len() && (#[trigger] sends@[k]).shred@ == shred && sends@[k].peer@
                == source.peers[relay]@;
        assert(models[k] == wanted);
    }
    if models.contains(wanted) {
        let k = choose|k: int| 0 <= k < models.len() && models[k] == wanted;
        assert(sends@[k].shred@ == shred && sends@[k].peer@ == source.peers[relay]@);
    }
}

proof fn lemma_sends_of(
    relays: Seq<Hash256>,
    assignments: Map<Hash256, Vec<Shred>>,
    peers: Map<Hash256, PeerBytes>,
    peer: Seq<u8>,
    shred: ShredModel,
)
    ensures
        sends_of(relays, assignments, peers).contains(SendModel { peer, shred }) <==> exists|
            relay: Hash256,
        | #[trigger]
            relays.contains(relay) && peers[relay]@ == peer && shred_models(
                assignments[relay]@,
            ).contains(shred),
    decreases relays.len(),
{
    let wanted = SendModel { peer, shred };
    if relays.len() > 0 {
        let shorter = relays.drop_last();
        let last = relays.last();
        lemma_sends_of(shorter, assignments, peers, peer, shred);
        let earlier = sends_of(shorter, assignments, peers);
        let held = shred_models(assignments[last]@);
        let own = sends_to(peers[last]@, held);
        let all = sends_of(relays, assignments, peers);
        assert(all == earlier + own);
        assert forall|relay: Hash256| #[trigger] relays.contains(relay) <==> shorter.contains(relay)
            || relay == last by {
            if shorter.contains(relay) {
                let k = choose|k: int| 0 <= k < shorter.len() && shorter[k] == relay;
                assert(relays[k] == relay);
            }
            assert(relays[relays.len() - 1] == last);
            if relays.contains(relay) && relay != last {
                let k = choose|k: int| 0 <= k < relays.len() && relays[k] == relay;
                assert(shorter[k] == relay);
            }
        }
        if held.contains(shred) && peers[last]@ == peer {
            let k = choose|k: int| 0 <= k < held.len() && held[k] == shred;
            assert(own[k] == wanted);
            assert(all[earlier.len() + k] == wanted);
            assert(relays.contains(last));
        }
        if earlier.contains(wanted) {
            let k = choose|k: int| 0 <= k < earlier.len() && earlier[k] == wanted;
            assert(all[k] == wanted);
            let relay = choose|relay: Hash256| #[trigger]
                shorter.contains(relay) && peers[relay]@ == peer && shred_models(
                    assignments[relay]@,
                ).contains(shred);
            assert(relays.contains(relay));
        }
        if all.contains(wanted) {
            let k = choose|k: int| 0 <= k < all.len() && all[k] == wanted;
            if k < earlier.len() {
                assert(earlier[k] == wanted);
            } else {
                assert(own[k - earlier.len()] == wanted);
                assert(held[k - earlier.len()] == shred);
            }
        }
        if exists|relay: Hash256| #[trigger]
            relays.contains(relay) && peers[relay]@ == peer && shred_models(
                assignments[relay]@,
            ).contains(shred) {
            let relay = choose|relay: Hash256| #[trigger]
                relays.contains(relay) && peers[relay]@ == peer && shred_models(
                    assignments[relay]@,
                ).contains(shred);
            if relay != last {
                assert(shorter.contains(relay));
            }
        }
    }
}

/// A payload that shreds gave is a candidate of its height under its own digest, unless
/// one is there already; it is counted, its shreds are dropped, and no others are.
pub proof fn law_rebuilt_payload_is_a_candidate(
    state: PipelineModel,
    block_id: Hash256,
    payload: BlockModel,
    other: Hash256,
)
    requires
        state.payloads_reconstructed < u64::MAX,
    ensures
        ({
            let after = rebuilt(state, block_id, payload);
            let slot = PayloadSlot {
                height: payload.height,
                discriminator: hash_of(block_encoding(payload)),
            };
            &&& after.payloads.contains_key(slot)
            &&& !state.payloads.contains_key(slot) ==> after.payloads[slot] == payload
            &&& state.payloads.contains_key(slot) ==> after.payloads == state.payloads
            &&& after.payloads_reconstructed == state.payloads_reconstructed + 1
            &&& !after.shreds.contains_key(block_id)
            &&& other != block_id && state.shreds.contains_key(other) ==> after.shreds.contains_key(
                other,
            ) && after.shreds[other] == state.shreds[other]
            &&& after.transactions == state.transactions
            &&& after.market == state.market
            &&& after.next_nonces == state.next_nonces
        }),
{
}

/// Where the buffer of shreds is full, the group that was heard of longest ago makes way,
/// and no other.
pub proof fn law_stalest_group_makes_way(
    state: PipelineModel,
    incoming: Hash256,
    evicted: Hash256,
    other: Hash256,
)
    requires
        is_stalest(state.shred_arrivals, incoming, evicted),
        !state.shreds.contains_key(incoming),
        state.shreds.dom().len() >= state.capacity,
        state.shred_arrivals.contains_key(other),
        other != incoming,
    ensures
        state.shred_arrivals[evicted] <= state.shred_arrivals[other],
        !with_room(state, incoming).shreds.contains_key(evicted),
        other != evicted && state.shreds.contains_key(other) ==> with_room(
            state,
            incoming,
        ).shreds.contains_key(other),
{
    let chosen = stalest(state.shred_arrivals, incoming);
    assert(is_stalest(state.shred_arrivals, incoming, chosen));
    if chosen != evicted {
        Hash256::precedes_irreflexive(chosen);
        if chosen.precedes(evicted) && evicted.precedes(chosen) {
            Hash256::precedes_transitive(chosen, evicted, chosen);
        }
    }
}

/// An admitted transaction is stored under its identifier and reserves its sender, and
/// the next one arrives later.
pub proof fn law_admitted_transaction_is_stored(
    state: PipelineModel,
    admission: Admission,
    other: Hash256,
)
    requires
        state.arrival_sequence < u64::MAX,
    ensures
        ({
            let after = admitted(state, admission);
            &&& after.transactions.contains_key(admission.id)
            &&& after.transactions[admission.id] == admission.transaction@
            &&& after.reserved_senders.contains_key(admission.transaction@.sender)
            &&& after.reserved_senders[admission.transaction@.sender] == admission.id
            &&& after.arrival_sequence == state.arrival_sequence + 1
            &&& other != admission.id && state.transactions.contains_key(other)
                ==> after.transactions.contains_key(other) && after.transactions[other]
                == state.transactions[other]
            &&& after.next_nonces == state.next_nonces
            &&& after.payloads == state.payloads
        }),
{
}

/// Propagating a payload counts as done only once every shred of a plan for it was taken
/// by the network, unless it was done before or there is nobody to send to; where it
/// fails, it can be tried again.
pub proof fn law_propagation_is_done_once_all_is_sent(
    source: SourceModel,
    network: &NetworkHandle,
    before: PipelineModel,
    after: PipelineModel,
    slot: PayloadSlot,
    payload: BlockModel,
    result: Result<(), PipelineError>,
)
    requires
        propagated_as(source, network, before, after, slot, payload, result),
    ensures
        result is Ok ==> after.propagated.contains(slot),
        result is Err ==> after == before,
        after.payloads == before.payloads,
        after.market == before.market,
        result is Ok && !before.propagated.contains(slot) && source.candidates.len() > 0
            ==> exists|sends: Vec<OutboundShred>| #[trigger]
            goes_out(source, network, payload, sends),
{
    if result is Ok && !before.propagated.contains(slot) && source.candidates.len() > 0 {
        let sends = choose|sends: Vec<OutboundShred>| #[trigger]
            sends_end(source, network, payload, sends, Ok(()));
        assert forall|i: int| 0 <= i < sends@.len() implies is_taken(
            network,
            (#[trigger] sends@[i])@,
        ) by {
            let model = outbound_models(sends@)[i];
            assert(model == sends@[i]@);
            assert(sent_as(network, model, Ok::<(), GossipError>(())));
            let outbound = choose|outbound: OutboundShred| #[trigger]
                network.shred_sent(outbound, Ok::<(), GossipError>(())) && outbound@ == model;
            assert(network.shred_offered(outbound, true));
        }
        assert(goes_out(source, network, payload, sends));
    }
}

/// Whether a send was taken by the network's queue.
pub open spec fn is_taken(network: &NetworkHandle, send: OutboundModel) -> bool {
    exists|outbound: OutboundShred| #[trigger]
        network.shred_offered(outbound, true) && outbound@ == send
}

/// Whether the sends of a plan for a payload were all taken by the network's queue.
pub open spec fn goes_out(
    source: SourceModel,
    network: &NetworkHandle,
    payload: BlockModel,
    sends: Vec<OutboundShred>,
) -> bool {
    &&& propagation_planned(source, payload, Ok(sends))
    &&& forall|i: int| 0 <= i < sends@.len() ==> is_taken(network, (#[trigger] sends@[i])@)
}

/// What a block is built of leaves the market: the fronts of queues go, and nothing else
/// is touched.
pub proof fn law_selection_takes_the_fronts(
    before: MarketModel<PriorityFeePolicy>,
    after: MarketModel<PriorityFeePolicy>,
    picked: Seq<PendingTransaction>,
    scope: FeeScope,
)
    requires
        market_gave(before, after, picked),
    ensures
        becomes(before, after),
        queue_of(after.queues, scope) == queue_of(before.queues, scope).skip(
            queue_of(before.queues, scope).len() - queue_of(after.queues, scope).len(),
        ),
        after.base_fee == before.base_fee,
        after.increment == before.increment,
        after.limit == before.limit,
        after.policies == before.policies,
        forall|i: int|
            0 <= i < picked.len() ==> !after.ids.contains((#[trigger] picked[i]).transaction.id),
{
    assert forall|other: FeeScope|
        is_rest_of(#[trigger] queue_of(after.queues, other), queue_of(before.queues, other)) by {
        let taken = picked.filter(in_scope(other));
        let rest = queue_of(after.queues, other);
        let queue = queue_of(before.queues, other);
        assert(queue == taken + rest);
        assert(rest =~= queue.skip(queue.len() - rest.len()));
    }
    assert(selects(before, after));
    assert(is_rest_of(queue_of(after.queues, scope), queue_of(before.queues, scope)));
    let ids = crate::mempool::market::ids_of(picked);
    assert forall|i: int| 0 <= i < picked.len() implies !after.ids.contains(
        (#[trigger] picked[i]).transaction.id,
    ) by {
        assert(ids[i] == picked[i].transaction.id);
        assert(ids.to_set().contains(ids[i]));
    }
}

/// What the pipeline prepares to store waits on the least object that it declares, and
/// under its sender's account only where it declares none.
pub proof fn law_prepared_admission_waits_on_its_least_object(
    state: &PipelineState,
    validator: &TransactionValidator,
    transaction: Transaction,
    decoding: PayloadDecoding,
    admission: Admission,
)
    requires
        call_ensures(
            PipelineState::prepare_admission,
            (state, validator, transaction, decoding),
            Ok(AdmissionStep::Store(admission)),
        ),
    ensures
        carried_payload(decoding) is Ok,
        ({
            let references = carried_payload(decoding).unwrap().executable.object_references@;
            &&& references.len() == 0 ==> admission.submitted.scope == FeeScope::Account(
                transaction.sender,
            )
            &&& references.len() > 0 ==> exists|i: int|
                {
                    &&& 0 <= i < references.len()
                    &&& admission.submitted.scope == FeeScope::Object((#[trigger] references[i]).id)
                    &&& forall|j: int|
                        0 <= j < references.len() ==> (#[trigger] references[j]).id
                            == references[i].id || references[i].id.precedes(references[j].id)
                }
        }),
{
    law_admitted_transaction_waits_on_its_least_object(
        state@,
        validator@,
        transaction@,
        decoding,
        admission,
    );
}

/// A missing payload is given the configured time to arrive, then asked for, and asked for
/// again after twice the time of before, up to a limit; once nothing is missing, all of
/// that is forgotten.
pub proof fn law_repair_waits_and_backs_off(state: DriverModel, now_ms: u64)
    requires
        state.submitted_height < u64::MAX,
        now_ms + state.config.payload_repair_delay_ms <= u64::MAX,
        now_ms + state.config.maximum_payload_repair_backoff_ms <= u64::MAX,
    ensures
        ({
            let missing = state.pending.contains_key((state.submitted_height + 1) as u64);
            let after = repair_step(state, now_ms).1;
            &&& !missing ==> after.repair_after_ms is None && after.repair_backoff_ms
                == state.config.payload_repair_delay_ms
            &&& missing && state.repair_after_ms is None ==> after.repair_after_ms == Some(
                (now_ms + state.config.payload_repair_delay_ms) as u64,
            ) && after.repair_backoff_ms == state.repair_backoff_ms
            &&& missing && state.repair_after_ms is Some && now_ms < state.repair_after_ms.unwrap()
                ==> after == state
            &&& missing && state.repair_after_ms is Some && now_ms
                >= state.repair_after_ms.unwrap() ==> {
                &&& after.repair_after_ms is Some
                &&& after.repair_after_ms.unwrap() == now_ms + after.repair_backoff_ms
                &&& after.repair_backoff_ms == if 2 * state.repair_backoff_ms
                    <= state.config.maximum_payload_repair_backoff_ms {
                    2 * state.repair_backoff_ms
                } else {
                    state.config.maximum_payload_repair_backoff_ms as int
                }
            }
        }),
{
}

/// Of the submitted payloads the sixty-four newest are kept for peers that lag: where one
/// more is there, the one of the lowest height goes, and no other.
pub proof fn law_newest_payloads_are_kept(recent: Map<u64, BlockModel>, height: u64)
    requires
        recent.dom().finite(),
        recent.contains_key(height),
    ensures
        recent.dom().len() <= 64 ==> kept_for_repair(recent) == recent,
        recent.dom().len() > 64 ==> {
            let kept = kept_for_repair(recent);
            &&& kept.dom().len() == recent.dom().len() - 1
            &&& kept.contains_key(height) ==> kept[height] == recent[height]
            &&& !kept.contains_key(height) ==> forall|other: u64| #[trigger]
                recent.contains_key(other) ==> height <= other
            &&& forall|other: u64| #[trigger]
                recent.contains_key(other) && !kept.contains_key(other) && !kept.contains_key(
                    height,
                ) ==> other == height
        },
{
    let keys = sorted_keys(recent.dom());
    lemma_sorted_keys_of_finite(recent.dom());
    if recent.dom().len() > 64 {
        assert(keys.contains(height));
        let least = keys[0];
        assert(keys.contains(least));
        assert(recent.dom().contains(least));
        assert(kept_for_repair(recent).dom() =~= recent.dom().remove(least));
        assert forall|other: u64| #[trigger] recent.contains_key(other) implies least <= other by {
            assert(keys.contains(other));
            let k = choose|k: int| 0 <= k < keys.len() && keys[k] == other;
            if k > 0 {
                assert(keys[0].precedes(keys[k]));
            }
        }
    }
}

} // verus!
