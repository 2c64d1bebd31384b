//! What the fee market and the ledger are for.

use std::cmp::Ordering;

use vstd::prelude::*;

use crate::bytes::first_difference;
use crate::mempool::errors::MempoolError;
use crate::mempool::fees::{
    amount_at, bind_result, bound, credit_result, credited, pending_credit, released,
    reserve_result, reserved, reserved_for, settle_result, settled, sound_ledger, FeeReceipt,
    LedgerModel, Settlement,
};
use crate::mempool::market::{
    fits_at, law_priority_rule_is_total, law_submission_keeps_queue_ordered, partitioned, queue_of,
    queue_ordered, queues_without, scope_order, submit_result, unlisted, with_pending, FeeScope,
    MarketModel, OrderingPolicy, PendingTransaction, PriorityFeePolicy, Queues,
    SubmittedTransaction,
};
use crate::ordered::SortKey;
use crate::types::{Address, Hash256};

verus! {

/// The default rule puts the higher tip first, of equal tips the earlier arrival, and
/// of equal arrivals the lower identifier; it is the rule of every scope without one
/// of its own.
pub proof fn law_higher_tips_come_first<P: OrderingPolicy>(
    policies: Map<FeeScope, P>,
    scope: FeeScope,
    left: PendingTransaction,
    right: PendingTransaction,
)
    requires
        !policies.contains_key(scope),
    ensures
        scope_order(policies, scope, left, right) == PriorityFeePolicy.preference(left, right),
        ({
            let a = left.transaction;
            let b = right.transaction;
            let order = PriorityFeePolicy.preference(left, right);
            &&& a.priority_fee_per_compute > b.priority_fee_per_compute ==> order == Ordering::Less
            &&& a.priority_fee_per_compute < b.priority_fee_per_compute ==> order
                == Ordering::Greater
            &&& a.priority_fee_per_compute == b.priority_fee_per_compute && a.arrival_sequence
                < b.arrival_sequence ==> order == Ordering::Less
            &&& a.priority_fee_per_compute == b.priority_fee_per_compute && a.arrival_sequence
                > b.arrival_sequence ==> order == Ordering::Greater
            &&& a.priority_fee_per_compute == b.priority_fee_per_compute && a.arrival_sequence
                == b.arrival_sequence && a.id.precedes(b.id) ==> order == Ordering::Less
            &&& order == Ordering::Equal ==> a.id == b.id
        }),
{
    Hash256::precedes_total(left.transaction.id, right.transaction.id);
}

/// Whether a queue goes by tip: tips never rise from front to back, and equal tips
/// stand in order of arrival.
pub open spec fn by_tip(queue: Seq<PendingTransaction>) -> bool {
    forall|i: int, j: int| #![trigger queue[i], queue[j]]
        0 <= i < j < queue.len() ==> {
            let a = queue[i].transaction;
            let b = queue[j].transaction;
            ||| a.priority_fee_per_compute > b.priority_fee_per_compute
            ||| a.priority_fee_per_compute == b.priority_fee_per_compute && a.arrival_sequence
                <= b.arrival_sequence
        }
}

/// A transaction is accepted at a place that the rule of its scope allows.
pub open spec fn accepts<P: OrderingPolicy>(
    before: MarketModel<P>,
    after: MarketModel<P>,
    pending: PendingTransaction,
    position: int,
) -> bool {
    let scope = pending.transaction.scope;
    let queue = queue_of(before.queues, scope);
    &&& 0 <= position <= queue.len()
    &&& after == with_pending(before, pending, position)
    &&& partitioned(before.policies, scope, queue, pending) ==> fits_at(
        before.policies,
        scope,
        queue,
        pending,
        position,
    )
}

/// What is left of a queue once transactions at its front are gone.
pub open spec fn is_rest_of(rest: Seq<PendingTransaction>, queue: Seq<PendingTransaction>) -> bool {
    rest.len() <= queue.len() && rest == queue.skip(queue.len() - rest.len())
}

/// Transactions at the fronts of queues are selected.
pub open spec fn selects<P: OrderingPolicy>(
    before: MarketModel<P>,
    after: MarketModel<P>,
) -> bool {
    forall|scope: FeeScope|
        is_rest_of(#[trigger] queue_of(after.queues, scope), queue_of(before.queues, scope))
}

/// What a market can turn into: a transaction is accepted, the fronts of queues are
/// selected, or transactions are removed.
pub open spec fn becomes<P: OrderingPolicy>(
    before: MarketModel<P>,
    after: MarketModel<P>,
) -> bool {
    ||| exists|pending: PendingTransaction, position: int| #[trigger]
        accepts(before, after, pending, position)
    ||| selects(before, after)
    ||| exists|ids: Set<Hash256>| after.queues == #[trigger] queues_without(before.queues, ids)
}

/// In every queue without a rule of its own, whatever was submitted, selected and
/// removed, tips never rise from front to back, and equal tips stand in order of
/// arrival.
pub proof fn law_queues_go_by_tip<P: OrderingPolicy>(
    markets: Seq<MarketModel<P>>,
    scope: FeeScope,
    k: int,
)
    requires
        0 <= k < markets.len(),
        markets[0].queues == Map::<FeeScope, Seq<PendingTransaction>>::empty(),
        forall|i: int| 0 <= i < markets.len() ==> !(#[trigger] markets[i]).policies.contains_key(
            scope,
        ),
        forall|i: int| 0 < i < markets.len() ==> becomes(markets[i - 1], #[trigger] markets[i]),
    ensures
        by_tip(queue_of(markets[k].queues, scope)),
{
    lemma_stays_ordered(markets, scope, k);
    let market = markets[k];
    let queue = queue_of(market.queues, scope);
    assert forall|i: int, j: int| #![trigger queue[i], queue[j]] 0 <= i < j < queue.len() implies {
        let a = queue[i].transaction;
        let b = queue[j].transaction;
        ||| a.priority_fee_per_compute > b.priority_fee_per_compute
        ||| a.priority_fee_per_compute == b.priority_fee_per_compute && a.arrival_sequence
            <= b.arrival_sequence
    } by {
        assert(scope_order(market.policies, scope, queue[i], queue[j]) != Ordering::Greater);
        law_higher_tips_come_first(market.policies, scope, queue[i], queue[j]);
    }
}

proof fn lemma_stays_ordered<P: OrderingPolicy>(
    markets: Seq<MarketModel<P>>,
    scope: FeeScope,
    k: int,
)
    requires
        0 <= k < markets.len(),
        markets[0].queues == Map::<FeeScope, Seq<PendingTransaction>>::empty(),
        forall|i: int| 0 <= i < markets.len() ==> !(#[trigger] markets[i]).policies.contains_key(
            scope,
        ),
        forall|i: int| 0 < i < markets.len() ==> becomes(markets[i - 1], #[trigger] markets[i]),
    ensures
        queue_ordered(markets[k].policies, scope, queue_of(markets[k].queues, scope)),
    decreases k,
{
    if k > 0 {
        lemma_stays_ordered(markets, scope, k - 1);
        let before = markets[k - 1];
        let after = markets[k];
        assert(becomes(before, after));
        assert(!before.policies.contains_key(scope) && !after.policies.contains_key(scope));
        if exists|pending: PendingTransaction, position: int| #[trigger]
            accepts(before, after, pending, position) {
            let (pending, position) = choose|pending: PendingTransaction, position: int| #[trigger]
                accepts(before, after, pending, position);
            lemma_ordered_after_acceptance(before, after, pending, position, scope);
        } else if selects(before, after) {
            lemma_ordered_after_selection(before, after, scope);
        } else {
            let ids = choose|ids: Set<Hash256>|
                after.queues == #[trigger] queues_without(before.queues, ids);
            lemma_ordered_after_removal(before, after, ids, scope);
        }
    }
}

proof fn lemma_same_rule<P: OrderingPolicy>(
    left: Map<FeeScope, P>,
    right: Map<FeeScope, P>,
    scope: FeeScope,
    queue: Seq<PendingTransaction>,
)
    requires
        !left.contains_key(scope),
        !right.contains_key(scope),
        queue_ordered(left, scope, queue),
    ensures
        queue_ordered(right, scope, queue),
{
    assert forall|i: int, j: int| #![trigger queue[i], queue[j]]
        0 <= i < j < queue.len() implies scope_order(right, scope, queue[i], queue[j])
        != Ordering::Greater by {
        assert(scope_order(left, scope, queue[i], queue[j]) != Ordering::Greater);
    }
}

proof fn lemma_ordered_after_acceptance<P: OrderingPolicy>(
    before: MarketModel<P>,
    after: MarketModel<P>,
    pending: PendingTransaction,
    position: int,
    scope: FeeScope,
)
    requires
        accepts(before, after, pending, position),
        !before.policies.contains_key(scope),
        queue_ordered(before.policies, scope, queue_of(before.queues, scope)),
    ensures
        queue_ordered(after.policies, scope, queue_of(after.queues, scope)),
{
    let queue = queue_of(before.queues, scope);
    let next = queue_of(after.queues, scope);
    if pending.transaction.scope == scope {
        law_priority_rule_is_total(before.policies, scope);
        law_submission_keeps_queue_ordered(before.policies, scope, queue, pending, position);
        assert(next == queue.insert(position, pending));
    } else {
        assert(next == queue);
    }
}

proof fn lemma_ordered_after_selection<P: OrderingPolicy>(
    before: MarketModel<P>,
    after: MarketModel<P>,
    scope: FeeScope,
)
    requires
        selects(before, after),
        !before.policies.contains_key(scope),
        !after.policies.contains_key(scope),
        queue_ordered(before.policies, scope, queue_of(before.queues, scope)),
    ensures
        queue_ordered(after.policies, scope, queue_of(after.queues, scope)),
{
    let queue = queue_of(before.queues, scope);
    let next = queue_of(after.queues, scope);
    assert(is_rest_of(next, queue));
    let gone = queue.len() - next.len();
    assert forall|i: int, j: int| #![trigger next[i], next[j]]
        0 <= i < j < next.len() implies scope_order(before.policies, scope, next[i], next[j])
        != Ordering::Greater by {
        assert(queue[gone + i] == next[i]);
        assert(queue[gone + j] == next[j]);
    }
    lemma_same_rule(before.policies, after.policies, scope, next);
}

proof fn lemma_ordered_after_removal<P: OrderingPolicy>(
    before: MarketModel<P>,
    after: MarketModel<P>,
    ids: Set<Hash256>,
    scope: FeeScope,
)
    requires
        after.queues == queues_without(before.queues, ids),
        !before.policies.contains_key(scope),
        !after.policies.contains_key(scope),
        queue_ordered(before.policies, scope, queue_of(before.queues, scope)),
    ensures
        queue_ordered(after.policies, scope, queue_of(after.queues, scope)),
{
    let queue = queue_of(before.queues, scope);
    let next = queue_of(after.queues, scope);
    lemma_filter_ordered(before.policies, scope, queue, ids);
    if before.queues.contains_key(scope) && queue.filter(unlisted(ids)).len() > 0 {
        assert(next == queue.filter(unlisted(ids)));
    } else {
        assert(next.len() == 0);
    }
    lemma_same_rule(before.policies, after.policies, scope, next);
}

proof fn lemma_filter_ordered<P: OrderingPolicy>(
    policies: Map<FeeScope, P>,
    scope: FeeScope,
    queue: Seq<PendingTransaction>,
    ids: Set<Hash256>,
)
    requires
        queue_ordered(policies, scope, queue),
    ensures
        queue_ordered(policies, scope, queue.filter(unlisted(ids))),
        forall|i: int|
            0 <= i < queue.filter(unlisted(ids)).len() ==> queue.contains(
                #[trigger] queue.filter(unlisted(ids))[i],
            ),
    decreases queue.len(),
{
    reveal(Seq::filter);
    if queue.len() > 0 {
        let shorter = queue.drop_last();
        assert(queue_ordered(policies, scope, shorter)) by {
            assert forall|i: int, j: int| #![trigger shorter[i], shorter[j]]
                0 <= i < j < shorter.len() implies scope_order(
                policies,
                scope,
                shorter[i],
                shorter[j],
            ) != Ordering::Greater by {
                assert(shorter[i] == queue[i] && shorter[j] == queue[j]);
            }
        }
        lemma_filter_ordered(policies, scope, shorter, ids);
        let kept = shorter.filter(unlisted(ids));
        let all = queue.filter(unlisted(ids));
        assert forall|i: int| 0 <= i < kept.len() implies queue.contains(#[trigger] kept[i])
            && scope_order(policies, scope, kept[i], queue.last()) != Ordering::Greater by {
            assert(shorter.contains(kept[i]));
            let k = choose|k: int| 0 <= k < shorter.len() && shorter[k] == kept[i];
            assert(queue[k] == kept[i]);
        }
        assert(queue.contains(queue.last()));
        if unlisted(ids)(queue.last()) {
            assert(all =~= kept.push(queue.last()));
        } else {
            assert(all =~= kept);
        }
    }
}

/// The price of a scope is the base fee plus one increment for each transaction that
/// waits in it, to which the tip is added; a transaction is accepted exactly where
/// it bids that much, names one of its objects or an account as its scope, may
/// compute something, and is not there yet.
pub proof fn law_price_follows_the_scope<P: OrderingPolicy>(
    market: MarketModel<P>,
    transaction: SubmittedTransaction,
)
    ensures
        ({
            let waiting = queue_of(market.queues, transaction.scope).len();
            let base = market.base_fee + market.increment * waiting;
            let result = submit_result(market, transaction);
            &&& result is Ok <==> {
                &&& transaction.scope is Account || transaction.touched_objects@.contains(
                    transaction.scope->Object_0,
                )
                &&& transaction.compute_limit > 0
                &&& !market.ids.contains(transaction.id)
                &&& base + transaction.priority_fee_per_compute <= transaction.max_fee_per_compute
            }
            &&& result matches Ok(quote) ==> quote.local_base_fee_per_compute == base
                && quote.effective_fee_per_compute == base + transaction.priority_fee_per_compute
        }),
{
}

/// What is priced is what is queued: an accepted transaction waits once, in its own
/// scope, and no other queue changes.
pub proof fn law_accepted_transaction_waits_in_its_scope<P: OrderingPolicy>(
    market: MarketModel<P>,
    pending: PendingTransaction,
    position: int,
    other: FeeScope,
)
    requires
        0 <= position <= queue_of(market.queues, pending.transaction.scope).len(),
    ensures
        ({
            let scope = pending.transaction.scope;
            let after = with_pending(market, pending, position);
            &&& queue_of(after.queues, scope).len() == queue_of(market.queues, scope).len() + 1
            &&& queue_of(after.queues, scope)[position] == pending
            &&& queue_of(after.queues, scope).remove(position) == queue_of(market.queues, scope)
            &&& other != scope ==> queue_of(after.queues, other) == queue_of(market.queues, other)
            &&& after.ids == market.ids.insert(pending.transaction.id)
            &&& after.base_fee == market.base_fee
            &&& after.increment == market.increment
            &&& after.limit == market.limit
            &&& after.policies == market.policies
        }),
{
    let scope = pending.transaction.scope;
    let after = with_pending(market, pending, position);
    assert(queue_of(after.queues, scope).remove(position) =~= queue_of(market.queues, scope));
}

/// Removal takes exactly the named transactions out of the queues, and the others
/// keep their order.
pub proof fn law_removal_takes_the_named_ones_only(
    queues: Queues,
    ids: Set<Hash256>,
    scope: FeeScope,
    pending: PendingTransaction,
)
    requires
        queues.contains_key(scope),
    ensures
        ({
            let after = queue_of(queues_without(queues, ids), scope);
            &&& after == queues[scope].filter(
                |one: PendingTransaction| !ids.contains(one.transaction.id),
            )
            &&& after.contains(pending) <==> queues[scope].contains(pending) && !ids.contains(
                pending.transaction.id,
            )
        }),
{
    let queue = queues[scope];
    let keep = |one: PendingTransaction| !ids.contains(one.transaction.id);
    assert(keep =~= unlisted(ids));
    let kept = queue.filter(keep);
    lemma_filter_members(queue, ids, pending);
    let after = queue_of(queues_without(queues, ids), scope);
    if kept.len() == 0 {
        assert(after =~= kept);
    }
}

proof fn lemma_filter_members(
    queue: Seq<PendingTransaction>,
    ids: Set<Hash256>,
    pending: PendingTransaction,
)
    ensures
        queue.filter(unlisted(ids)).contains(pending) <==> queue.contains(pending)
            && !ids.contains(pending.transaction.id),
    decreases queue.len(),
{
    reveal(Seq::filter);
    if queue.len() > 0 {
        let shorter = queue.drop_last();
        lemma_filter_members(shorter, ids, pending);
        let kept = shorter.filter(unlisted(ids));
        let all = queue.filter(unlisted(ids));
        assert(queue =~= shorter.push(queue.last()));
        assert(queue.contains(pending) <==> shorter.contains(pending) || queue.last() == pending) by {
            if shorter.contains(pending) {
                let k = choose|k: int| 0 <= k < shorter.len() && shorter[k] == pending;
                assert(queue[k] == pending);
            }
            assert(queue[queue.len() - 1] == queue.last());
        }
        if unlisted(ids)(queue.last()) {
            assert(all == kept.push(queue.last()));
            if kept.contains(pending) {
                let k = choose|k: int| 0 <= k < kept.len() && kept[k] == pending;
                assert(all[k] == pending);
            }
            assert(all[all.len() - 1] == queue.last());
            if all.contains(pending) && pending != queue.last() {
                let k = choose|k: int| 0 <= k < all.len() && all[k] == pending;
                assert(kept[k] == pending);
            }
        }
    }
}

/// A settlement charges the payer the base fee and the tip for the compute that was
/// used, and no more: what the reservation held beyond it is given back, the
/// reservation is gone, and no other is touched.
pub proof fn law_settlement_charges_for_actual_compute(
    ledger: LedgerModel,
    settlement: Settlement,
    actual_compute: u64,
    validator: Address,
    receipt: FeeReceipt,
    other: Hash256,
)
    requires
        sound_ledger(ledger),
        settle_result(ledger, settlement, actual_compute, validator) == Ok::<
            FeeReceipt,
            MempoolError,
        >(receipt),
    ensures
        ({
            let id = settlement.transaction_id;
            let held = ledger.reservations[id];
            let after = settled(ledger, settlement, actual_compute, validator);
            let price = settlement.local_base_fee_per_compute
                + settlement.priority_fee_per_compute;
            &&& receipt.transaction_id == id
            &&& receipt.payer == settlement.payer
            &&& receipt.validator == validator
            &&& receipt.actual_compute == actual_compute
            &&& receipt.unit_price == price
            &&& receipt.charged == price * actual_compute
            &&& receipt.reserved == held.max_fee_per_compute * held.compute_limit
            &&& receipt.refunded == receipt.reserved - receipt.charged
            &&& actual_compute <= settlement.compute_limit == held.compute_limit
            &&& held.payer == settlement.payer
            &&& settlement.payer != validator ==> {
                &&& amount_at(after.balances, settlement.payer) == amount_at(
                    ledger.balances,
                    settlement.payer,
                ) - price * actual_compute
                &&& amount_at(after.balances, validator) == amount_at(ledger.balances, validator)
                    + price * actual_compute
            }
            &&& !after.reservations.contains_key(id)
            &&& other != id ==> after.reservations.contains_key(other)
                == ledger.reservations.contains_key(other) && (ledger.reservations.contains_key(
                other,
            ) ==> after.reservations[other] == ledger.reservations[other])
        }),
{
    let id = settlement.transaction_id;
    let held = ledger.reservations[id];
    assert(crate::mempool::fees::sound_reservation(id, held));
    let price = (settlement.local_base_fee_per_compute + settlement.priority_fee_per_compute) as int;
    let used = actual_compute as int;
    let limit = settlement.compute_limit as int;
    let cap = held.max_fee_per_compute as int;
    assert(0 <= price * used <= price * limit <= cap * limit) by (nonlinear_arith)
        requires
            0 <= price <= cap,
            0 <= used <= limit,
    ;
    crate::ordered::lemma_sum_remove(
        ledger.reservations,
        crate::mempool::fees::locked_at(settlement.payer),
        id,
    );
    assert(reserved_for(ledger, settlement.payer) <= amount_at(
        ledger.balances,
        settlement.payer,
    ));
}

/// A new reservation locks the highest price for the whole limit: it succeeds exactly
/// where that much of the payer's balance is not locked yet, it changes no balance,
/// and it holds what was asked for.
pub proof fn law_reservation_locks_the_maximum(
    ledger: LedgerModel,
    id: Hash256,
    payer: Address,
    compute_limit: u64,
    max_fee: u128,
    other: Address,
)
    requires
        sound_ledger(ledger),
        !ledger.reservations.contains_key(id),
    ensures
        ({
            let amount = max_fee * compute_limit;
            let after = reserved(ledger, id, payer, compute_limit, max_fee);
            let result = reserve_result(ledger, id, payer, compute_limit, max_fee);
            &&& result is Ok <==> reserved_for(ledger, payer) + amount <= amount_at(
                ledger.balances,
                payer,
            )
            &&& result is Ok ==> {
                &&& after.balances == ledger.balances
                &&& reserved_for(after, payer) == reserved_for(ledger, payer) + amount
                &&& other != payer ==> reserved_for(after, other) == reserved_for(ledger, other)
                &&& after.reservations.contains_key(id)
                &&& after.reservations[id].payer == payer
                &&& after.reservations[id].compute_limit == compute_limit
                &&& after.reservations[id].max_fee_per_compute == max_fee
                &&& after.reservations[id].amount == amount
                &&& after.reservations[id].settlement is None
            }
        }),
{
    let after = reserved(ledger, id, payer, compute_limit, max_fee);
    assert(max_fee * compute_limit >= 0) by (nonlinear_arith);
    crate::ordered::lemma_sum_insert(
        ledger.reservations,
        crate::mempool::fees::locked_at(payer),
        id,
        after.reservations[id],
    );
    crate::ordered::lemma_sum_insert(
        ledger.reservations,
        crate::mempool::fees::locked_at(other),
        id,
        after.reservations[id],
    );
}

/// A reservation is bound only to a settlement of its own payer and limit, at a price
/// that it covers.
pub proof fn law_binding_stays_within_the_reservation(
    ledger: LedgerModel,
    settlement: Settlement,
    validator: Address,
)
    requires
        bind_result(ledger, settlement, validator) is Ok,
    ensures
        ledger.reservations.contains_key(settlement.transaction_id),
        ({
            let held = ledger.reservations[settlement.transaction_id];
            &&& held.payer == settlement.payer
            &&& held.compute_limit == settlement.compute_limit
            &&& settlement.local_base_fee_per_compute + settlement.priority_fee_per_compute
                <= held.max_fee_per_compute
            &&& (settlement.local_base_fee_per_compute + settlement.priority_fee_per_compute)
                * settlement.compute_limit <= held.amount
        }),
{
}

/// A binding succeeds for every settlement that its reservation covers, unless another
/// one is bound already or the validator could not hold what it may earn; it records the
/// settlement, its validator and the most that it may charge, and moves no balance.
pub proof fn law_binding_holds_what_was_bound(
    ledger: LedgerModel,
    settlement: Settlement,
    validator: Address,
    other: Hash256,
)
    requires
        sound_ledger(ledger),
        ledger.reservations.contains_key(settlement.transaction_id),
    ensures
        ({
            let held = ledger.reservations[settlement.transaction_id];
            let price = settlement.local_base_fee_per_compute
                + settlement.priority_fee_per_compute;
            let charge = price * settlement.compute_limit;
            let after = bound(ledger, settlement, validator);
            &&& held.payer == settlement.payer && held.compute_limit == settlement.compute_limit
                && price <= held.max_fee_per_compute && held.settlement is None && (
            settlement.payer == validator || amount_at(ledger.balances, validator)
                + pending_credit(ledger, validator) + charge <= u128::MAX) ==> bind_result(
                ledger,
                settlement,
                validator,
            ) is Ok
            &&& bind_result(ledger, settlement, validator) is Ok ==> {
                let now_held = after.reservations[settlement.transaction_id];
                &&& after.balances == ledger.balances
                &&& now_held.settlement is Some
                &&& now_held.settlement.unwrap().settlement == settlement
                &&& now_held.settlement.unwrap().validator == validator
                &&& now_held.settlement.unwrap().maximum_charge == charge
                &&& now_held.amount == held.amount
                &&& now_held.payer == held.payer
                &&& other != settlement.transaction_id && ledger.reservations.contains_key(other)
                    ==> after.reservations.contains_key(other) && after.reservations[other]
                    == ledger.reservations[other]
                &&& held.settlement matches Some(binding) ==> binding.settlement == settlement
                    && binding.validator == validator
            }
        }),
{
    let held = ledger.reservations[settlement.transaction_id];
    let price = settlement.local_base_fee_per_compute + settlement.priority_fee_per_compute;
    if held.compute_limit == settlement.compute_limit && price <= held.max_fee_per_compute {
        assert(price * settlement.compute_limit <= held.max_fee_per_compute * held.compute_limit)
            by (nonlinear_arith)
            requires
                held.compute_limit == settlement.compute_limit,
                0 <= price <= held.max_fee_per_compute,
        ;
    }
}

/// The terms of a reservation are fixed: asking again under the same identifier succeeds
/// for the same payer, limit and price only, and changes nothing.
pub proof fn law_reservation_terms_are_fixed(
    ledger: LedgerModel,
    id: Hash256,
    payer: Address,
    compute_limit: u64,
    max_fee: u128,
)
    requires
        sound_ledger(ledger),
        ledger.reservations.contains_key(id),
    ensures
        reserve_result(ledger, id, payer, compute_limit, max_fee) is Ok <==> {
            &&& ledger.reservations[id].payer == payer
            &&& ledger.reservations[id].compute_limit == compute_limit
            &&& ledger.reservations[id].max_fee_per_compute == max_fee
        },
        reserved(ledger, id, payer, compute_limit, max_fee) == ledger,
{
}

/// A credit adds its amount to one balance, and is refused only where that balance could
/// not hold it.
pub proof fn law_credit_adds_its_amount(
    ledger: LedgerModel,
    address: Address,
    amount: u128,
    other: Address,
)
    ensures
        credit_result(ledger, address, amount) is Ok <==> amount_at(ledger.balances, address)
            + amount <= u128::MAX,
        credit_result(ledger, address, amount) is Ok ==> {
            let after = credited(ledger, address, amount);
            &&& amount_at(after.balances, address) == amount_at(ledger.balances, address) + amount
            &&& other != address ==> amount_at(after.balances, other) == amount_at(
                ledger.balances,
                other,
            )
            &&& after.reservations == ledger.reservations
        },
{
}

/// A release gives up one reservation, leaves every other one, and moves no balance.
pub proof fn law_release_gives_up_one_reservation(ledger: LedgerModel, id: Hash256, other: Hash256)
    ensures
        !released(ledger, id).reservations.contains_key(id),
        other != id ==> (released(ledger, id).reservations.contains_key(other)
            <==> ledger.reservations.contains_key(other)),
        other != id && ledger.reservations.contains_key(other) ==> released(
            ledger,
            id,
        ).reservations[other] == ledger.reservations[other],
        released(ledger, id).balances == ledger.balances,
{
}

/// What the default rule answers: the higher tip first, and of equal tips the earlier
/// arrival.
pub proof fn law_default_rule_answers_by_tip(
    policy: &PriorityFeePolicy,
    left: &PendingTransaction,
    right: &PendingTransaction,
    order: Ordering,
)
    requires
        call_ensures(PriorityFeePolicy::compare, (policy, left, right), order),
    ensures
        left.transaction.priority_fee_per_compute > right.transaction.priority_fee_per_compute
            ==> order == Ordering::Less,
        left.transaction.priority_fee_per_compute < right.transaction.priority_fee_per_compute
            ==> order == Ordering::Greater,
        left.transaction.priority_fee_per_compute == right.transaction.priority_fee_per_compute
            && left.transaction.arrival_sequence < right.transaction.arrival_sequence ==> order
            == Ordering::Less,
        left.transaction.priority_fee_per_compute == right.transaction.priority_fee_per_compute
            && left.transaction.arrival_sequence > right.transaction.arrival_sequence ==> order
            == Ordering::Greater,
{
    law_higher_tips_come_first(
        Map::<FeeScope, PriorityFeePolicy>::empty(),
        left.transaction.scope,
        *left,
        *right,
    );
}

/// Scopes take their turns in one order: objects before accounts, and each kind in the
/// order of its bytes, of which the first that differ decide.
pub proof fn law_scopes_take_turns_in_order(
    object: Hash256,
    other_object: Hash256,
    account: Address,
    other_account: Address,
    k: int,
)
    requires
        0 <= k < 32,
        forall|i: int| 0 <= i < k ==> object@[i] == other_object@[i],
        object@[k] < other_object@[k],
        forall|i: int| 0 <= i < k ==> account@[i] == other_account@[i],
        account@[k] < other_account@[k],
    ensures
        FeeScope::Object(object).precedes(FeeScope::Account(account)),
        !FeeScope::Account(account).precedes(FeeScope::Object(object)),
        FeeScope::Object(object).precedes(FeeScope::Object(other_object)),
        FeeScope::Account(account).precedes(FeeScope::Account(other_account)),
        object.precedes(other_object),
        account.precedes(other_account),
{
    assert(first_difference(object@, other_object@, k));
    assert(first_difference(account@, other_account@, k));
}

} // verus!
