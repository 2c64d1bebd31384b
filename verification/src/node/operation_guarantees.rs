//! What operations do to what they are called on, read off their contracts.

use vstd::prelude::*;

use crate::consensus::certificates::{certificate_check, CertificateKind, QuorumCertificate};
use crate::consensus::errors::ConsensusError;
use crate::consensus::proposals::{block_id_of, FinalizedOrder, OrderModel, Proposal, ProposalModel};
use crate::consensus::replica::{Replica, SafetyState, VoteSlot};
use crate::consensus::validators::ValidatorSet;
use crate::consensus::votes::{
    EquivocationEvidence, EvidenceBook, SlashingDirective, SlashingPolicy, Vote, VotePhase,
};
use crate::crypto::AggregateSignatureScheme;
use crate::execution::commit::{CommitAction, OrderedCommit, SpeculativeAttempt};
use crate::execution::deferred::{
    DeferredExecutionError, DeferredExecutionResult, DeferredExecutor, OrderedExecutionBlock,
};
use crate::execution::transactions::ExecutableTransaction;
use crate::mempool::errors::MempoolError;
use crate::mempool::fees::{
    amount_at, sound_ledger, FeeLedger, FeeReceipt, FeeReservation, Settlement,
};
use crate::mempool::guarantees::law_settlement_charges_for_actual_compute;
use crate::mempool::market::{
    ids_of, in_scope, queue_of, BlockSelection, FeeQuote, FeeScope, LocalizedMempool,
    OrderingPolicy, SubmittedTransaction,
};
use crate::network::kestrel_cast::Shred;
use crate::network::service::PeerBytes;
use crate::node::coordinator::{
    answered, tick_step, CoordinatorError, Flow, ProposalTransactionSource, ProposedOrder,
    SourceReply,
};
use crate::node::driver::{flow_result, turn_of, ConsensusCoordinator};
use crate::node::guarantees::undecided;
use crate::node::lifecycle::{
    charge as charge_for_block, charged_all, validation_refusal, BlockLifecycle, Charge, CommitPlan,
    PayloadDecoding, PendingBlock, TransactionValidator,
};
use crate::node::lifecycle_guarantees::{
    fees_but, fees_of, law_senders_pay_exactly_their_own_fees, payable,
};
use crate::node::payload::PropagatedBlock;
use crate::node::pipeline::{offenses_of, PayloadSlot, PipelineError};
use crate::node::proposal_source::PipelineState;
use crate::node::round::{CoordinatorOutcome, Effect, EffectModel, Envelope, RoundState, WireModel};
use crate::node::round_guarantees::{
    finalizes_faithfully, knows_proposal, law_messages_finalize_certified_orders_only,
    law_nothing_else_is_proposed, law_tick_finalizes_what_was_proposed, orders, proposes_faithfully,
};
use crate::node::stage2::Stage2Pipeline;
use crate::types::{zero_hash, Address, Hash256, ObjectId};

verus! {

/// Whether a source, asked for the block of a height on a parent, answered with these
/// transactions and this fee commitment.
pub open spec fn source_offers<P: ProposalTransactionSource>(
    source: &P,
    height: u64,
    parent_id: Hash256,
    transaction_ids: Seq<Hash256>,
    fee_commitment: Hash256,
) -> bool {
    exists|order: ProposedOrder| #[trigger]
        call_ensures(P::transaction_ids, (source, height, parent_id), Some(order))
            && order.transaction_ids@ == transaction_ids && order.fee_commitment == fee_commitment
}

/// What a validator broadcasts as a new proposal in a tick is, transaction for transaction
/// and fee for fee, what its source answered for the next block.
pub proof fn law_tick_proposes_what_the_source_offers<
    S: AggregateSignatureScheme,
    P: ProposalTransactionSource,
>(
    coordinator: &mut ConsensusCoordinator<S>,
    round: &mut RoundState,
    now: u64,
    source: &P,
    effects: &mut Vec<Effect>,
    result: Result<Option<CoordinatorOutcome>, CoordinatorError>,
    k: int,
)
    requires
        call_ensures(
            ConsensusCoordinator::<S>::on_tick::<P>,
            (coordinator, round, now, source, effects),
            result,
        ),
        old(round)@.proposal is None,
        old(effects)@.len() <= k < final(effects)@.len(),
    ensures
        final(effects)@[k]@ matches EffectModel::Broadcast { message: WireModel::Proposal(signed) }
            ==> {
            let proposal = signed.proposal;
            let safety = old(coordinator).safety();
            &&& source_offers(
                source,
                safety.height,
                safety.parent_id,
                proposal.transaction_ids,
                proposal.fee_commitment,
            )
            &&& proposal.height == safety.height
            &&& proposal.view == safety.view
            &&& proposal.parent_id == safety.parent_id
            &&& proposal.proposer == old(coordinator).context().identity.id
        },
{
    let context = old(coordinator).context();
    let turn = turn_of(*old(coordinator), *old(round), old(effects)@);
    let after = turn_of(*final(coordinator), *final(round), final(effects)@);
    let (reply, flow) = choose|reply: SourceReply, flow: Flow| #[trigger]
        answered(context, old(coordinator).safety(), old(round)@, now, source, reply) && (
        after,
        flow,
    ) == tick_step(context, turn, now, reply@) && result
            == #[trigger] flow_result(flow);
    assert(after.effects.len() == final(effects)@.len());
    assert(turn.effects.len() == old(effects)@.len());
    assert(after.effects[k] == final(effects)@[k]@);
    law_nothing_else_is_proposed(context, turn, now, reply, k);
    assert(proposes_faithfully(context, turn, reply, after.effects[k]));
    if let EffectModel::Broadcast { message: WireModel::Proposal(signed) } = after.effects[k] {
        let order = reply.order.unwrap();
        assert(call_ensures(
            P::transaction_ids,
            (source, old(coordinator).safety().height, old(coordinator).safety().parent_id),
            Some(order),
        ));
    }
}

/// A ledger that settles takes from the payer, and gives to the validator, the unit price
/// for the compute that was used and for no more; a settlement that fails moves nothing.
pub proof fn law_settling_moves_the_actual_fee(
    ledger: &mut FeeLedger,
    settlement: &Settlement,
    actual_compute: u64,
    validator: Address,
    result: Result<FeeReceipt, MempoolError>,
)
    requires
        call_ensures(FeeLedger::settle, (ledger, settlement, actual_compute, validator), result),
        sound_ledger(old(ledger)@),
    ensures
        result is Err ==> final(ledger)@ == old(ledger)@,
        result matches Ok(receipt) ==> {
            let fee = (settlement.local_base_fee_per_compute + settlement.priority_fee_per_compute)
                * actual_compute;
            &&& receipt.charged == fee
            &&& receipt.payer == settlement.payer
            &&& receipt.validator == validator
            &&& settlement.payer != validator ==> amount_at(
                final(ledger)@.balances,
                settlement.payer,
            ) == amount_at(old(ledger)@.balances, settlement.payer) - fee
            &&& settlement.payer != validator ==> amount_at(final(ledger)@.balances, validator)
                == amount_at(old(ledger)@.balances, validator) + fee
            &&& !final(ledger)@.reservations.contains_key(settlement.transaction_id)
        },
{
    if let Ok(receipt) = result {
        law_settlement_charges_for_actual_compute(
            old(ledger)@,
            *settlement,
            actual_compute,
            validator,
            receipt,
            settlement.transaction_id,
        );
    }
}

/// A ledger that reserves locks the highest price for the whole limit and moves nothing.
pub proof fn law_reserving_locks_and_moves_nothing(
    ledger: &mut FeeLedger,
    id: Hash256,
    payer: Address,
    compute_limit: u64,
    max_fee: u128,
    result: Result<(), MempoolError>,
)
    requires
        call_ensures(FeeLedger::reserve_maximum, (ledger, id, payer, compute_limit, max_fee), result),
    ensures
        final(ledger)@.balances == old(ledger)@.balances,
        result is Err ==> final(ledger)@ == old(ledger)@,
        result is Ok && !old(ledger)@.reservations.contains_key(id) ==> {
            let held = final(ledger)@.reservations[id];
            &&& final(ledger)@.reservations.contains_key(id)
            &&& held.payer == payer
            &&& held.compute_limit == compute_limit
            &&& held.max_fee_per_compute == max_fee
            &&& held.amount == max_fee * compute_limit
        },
{
}

/// A ledger that credits adds the amount to one balance.
pub proof fn law_crediting_adds_the_amount(
    ledger: &mut FeeLedger,
    address: Address,
    amount: u128,
    other: Address,
    result: Result<(), MempoolError>,
)
    requires
        call_ensures(FeeLedger::credit, (ledger, address, amount), result),
    ensures
        result is Ok ==> amount_at(final(ledger)@.balances, address) == amount_at(
            old(ledger)@.balances,
            address,
        ) + amount,
        result is Err ==> final(ledger)@ == old(ledger)@,
        other != address ==> amount_at(final(ledger)@.balances, other) == amount_at(
            old(ledger)@.balances,
            other,
        ),
{
}

/// A market that accepts a transaction quotes the base fee of its scope, which rises by
/// one increment with each transaction that waits there, and holds one more.
pub proof fn law_submitting_pays_for_congestion<P: OrderingPolicy>(
    market: &mut LocalizedMempool<P>,
    transaction: SubmittedTransaction,
    result: Result<FeeQuote, MempoolError>,
    other: FeeScope,
)
    requires
        call_ensures(LocalizedMempool::<P>::submit, (market, transaction), result),
    ensures
        result is Err ==> final(market)@ == old(market)@,
        result matches Ok(quote) ==> {
            let waiting = queue_of(old(market)@.queues, transaction.scope).len();
            &&& quote.local_base_fee_per_compute == old(market)@.base_fee + old(market)@.increment
                * waiting
            &&& quote.effective_fee_per_compute == quote.local_base_fee_per_compute
                + transaction.priority_fee_per_compute
            &&& quote.effective_fee_per_compute <= transaction.max_fee_per_compute
            &&& queue_of(final(market)@.queues, transaction.scope).len() == waiting + 1
            &&& other != transaction.scope ==> queue_of(final(market)@.queues, other) == queue_of(
                old(market)@.queues,
                other,
            )
            &&& final(market)@.ids == old(market)@.ids.insert(transaction.id)
        },
{
}

/// A market that selects a block hands out no more than was asked for, and what it hands
/// out no longer waits.
pub proof fn law_selecting_takes_from_the_queues<P: OrderingPolicy>(
    market: &mut LocalizedMempool<P>,
    maximum: usize,
    selection: BlockSelection,
    scope: FeeScope,
    i: int,
)
    requires
        call_ensures(LocalizedMempool::<P>::select_block, (market, maximum), selection),
    ensures
        selection.transactions@.len() <= maximum,
        queue_of(final(market)@.queues, scope).len() <= queue_of(old(market)@.queues, scope).len(),
        0 <= i < selection.transactions@.len() ==> !final(market)@.ids.contains(
            selection.transactions@[i].transaction.id,
        ),
        final(market)@.base_fee == old(market)@.base_fee,
        final(market)@.increment == old(market)@.increment,
        final(market)@.limit == old(market)@.limit,
{
    let ids = ids_of(selection.transactions@);
    if 0 <= i < selection.transactions@.len() {
        assert(ids[i] == selection.transactions@[i].transaction.id);
        assert(ids.to_set().contains(ids[i]));
    }
    assert(queue_of(old(market)@.queues, scope) == selection.transactions@.filter(
        in_scope(scope),
    ) + queue_of(final(market)@.queues, scope));
}

/// A rule is registered once for a scope; the market keeps all else as it is.
pub proof fn law_rules_are_registered_once<P: OrderingPolicy>(
    market: &mut LocalizedMempool<P>,
    scope: FeeScope,
    policy: P,
    result: Result<(), MempoolError>,
)
    requires
        call_ensures(LocalizedMempool::<P>::register_policy, (market, scope, policy), result),
    ensures
        result is Ok <==> !old(market)@.policies.contains_key(scope),
        result is Ok ==> final(market)@.policies == old(market)@.policies.insert(scope, policy),
        result is Err ==> final(market)@ == old(market)@,
        final(market)@.queues == old(market)@.queues,
        final(market)@.ids == old(market)@.ids,
{
}

/// A replica's vote for a proposal is for that proposal's block, in the replica's own
/// round, and the replica remembers it.
pub proof fn law_voting_is_for_the_proposed_block<S: AggregateSignatureScheme>(
    replica: &mut Replica<S>,
    proposal: &Proposal,
    vote: Vote,
)
    requires
        call_ensures(Replica::<S>::vote_for_proposal, (replica, proposal), Ok(vote)),
    ensures
        vote.block_id == proposal.block_id,
        vote.height == proposal.height,
        vote.view == proposal.view,
        vote.phase == VotePhase::Order,
        vote.validator == old(replica).identity().id,
        proposal.height == old(replica).safety().height,
        proposal.view == old(replica).safety().view,
        proposal.parent_id == old(replica).safety().parent_id,
        final(replica).safety().height == old(replica).safety().height,
        final(replica).safety().lock == old(replica).safety().lock,
        final(replica).identity() == old(replica).identity(),
{
    assert(vote@.block_id == proposal@.block_id);
}

/// A replica that finalizes a certificate of its height moves to the next height, on top
/// of the certified block, and remembers it.
pub proof fn law_finalizing_moves_to_the_next_height<S: AggregateSignatureScheme>(
    replica: &mut Replica<S>,
    certificate: &QuorumCertificate,
    block: Hash256,
)
    requires
        call_ensures(Replica::<S>::finalize, (replica, certificate), Ok(block)),
        !old(replica).safety().finalized.contains_key(certificate.height),
    ensures
        block == certificate.block_id,
        certificate.height == old(replica).safety().height,
        final(replica).safety() == (SafetyState {
            height: (old(replica).safety().height + 1) as u64,
            view: 0,
            parent_id: certificate.block_id,
            lock: None,
            votes: old(replica).safety().votes,
            finalized: old(replica).safety().finalized.insert(
                certificate.height,
                certificate.block_id,
            ),
        }),
{
}

/// A replica changes its view by one, and only on a timeout certificate of its round.
pub proof fn law_advancing_moves_to_the_next_view<S: AggregateSignatureScheme>(
    replica: &mut Replica<S>,
    timeout: &QuorumCertificate,
    result: Result<(), ConsensusError>,
)
    requires
        call_ensures(Replica::<S>::advance_view, (replica, timeout), result),
    ensures
        result is Ok ==> final(replica).safety().view == old(replica).safety().view + 1
            && timeout.height == old(replica).safety().height && timeout.view == old(
            replica,
        ).safety().view,
        result is Err ==> final(replica).safety() == old(replica).safety(),
        final(replica).safety().height == old(replica).safety().height,
        final(replica).safety().lock == old(replica).safety().lock,
        final(replica).safety().votes == old(replica).safety().votes,
{
}

/// A finalized order waits under its height until it is submitted.
pub proof fn law_received_order_waits(
    driver: &mut Stage2Pipeline,
    order: FinalizedOrder,
    other: u64,
)
    requires
        call_ensures(Stage2Pipeline::receive_order, (driver, order), ()),
    ensures
        final(driver)@.pending.contains_key(order.height),
        final(driver)@.pending[order.height] == order@,
        other != order.height ==> (final(driver)@.pending.contains_key(other) <==> old(
            driver,
        )@.pending.contains_key(other)),
        final(driver)@.submitted_height == old(driver)@.submitted_height,
        final(driver)@.offenses == old(driver)@.offenses,
{
    assert(order@.height == order.height);
}

/// A peer is to be banned exactly when a message of its own brings its offenses to the
/// threshold; nobody is blamed for a message without a source.
pub proof fn law_rejecting_blames_the_sender(
    driver: &mut Stage2Pipeline,
    source: Option<&PeerBytes>,
    error: &PipelineError,
    ban: bool,
)
    requires
        call_ensures(Stage2Pipeline::reject_message, (driver, source, error), ban),
    ensures
        source is None ==> !ban && final(driver)@ == old(driver)@,
        error is NonceMismatch || error is Mempool || error is Storage ==> !ban && final(driver)@
            == old(driver)@,
        source is Some && error is Lifecycle ==> {
            let before = offenses_of(
                old(driver)@.offenses,
                source.unwrap()@,
            );
            &&& ban <==> before + 1 == old(driver)@.config.peer_offense_ban_threshold
            &&& before < u32::MAX ==> offenses_of(
                final(driver)@.offenses,
                source.unwrap()@,
            ) == before + 1
        },
{
}

/// Whether a proposal is one that a validator knows: its own of this round, one that it
/// has seen, or the one that it makes of what its source offers.
pub open spec fn knows<S: AggregateSignatureScheme, P: ProposalTransactionSource>(
    coordinator: ConsensusCoordinator<S>,
    round: RoundState,
    source: &P,
    proposal: ProposalModel,
) -> bool {
    ||| round@.proposal matches Some(signed) && signed.proposal == proposal
    ||| exists|id: Hash256| #[trigger]
        round@.observed.contains_key(id) && round@.observed[id].proposal == proposal
    ||| {
        &&& proposal.height == coordinator.safety().height
        &&& proposal.parent_id == coordinator.safety().parent_id
        &&& source_offers(
            source,
            proposal.height,
            proposal.parent_id,
            proposal.transaction_ids,
            proposal.fee_commitment,
        )
    }
}

/// Whether an order is for the block of a proposal: its transactions and fees are the
/// proposal's, and the certificate behind it is for that block.
pub open spec fn is_order_for(order: OrderModel, proposal: ProposalModel) -> bool {
    &&& order.transaction_ids == proposal.transaction_ids
    &&& order.fee_commitment == proposal.fee_commitment
    &&& order.block_id == proposal.block_id
    &&& order.certificate.block_id == proposal.block_id
    &&& order.certificate.height == order.height
}

/// What a validator finalizes in a tick is a proposal that it knows, with exactly the
/// transactions and fees of that proposal, under a certificate for its block.
pub proof fn law_tick_finalizes_the_certified_transactions<
    S: AggregateSignatureScheme,
    P: ProposalTransactionSource,
>(
    coordinator: &mut ConsensusCoordinator<S>,
    round: &mut RoundState,
    now: u64,
    source: &P,
    effects: &mut Vec<Effect>,
    result: Result<Option<CoordinatorOutcome>, CoordinatorError>,
    k: int,
)
    requires
        call_ensures(
            ConsensusCoordinator::<S>::on_tick::<P>,
            (coordinator, round, now, source, effects),
            result,
        ),
        !old(coordinator).safety().finalized.contains_key(old(coordinator).safety().height),
        old(round)@.observed.dom().finite(),
        old(effects)@.len() <= k < final(effects)@.len(),
    ensures
        final(effects)@[k]@ matches EffectModel::Finalize { order, outcome } ==> {
            &&& order.height == old(coordinator).safety().height
            &&& outcome.finalized_height == order.height
            &&& outcome.finalized_block == order.block_id
            &&& exists|proposal: ProposalModel| #[trigger]
                knows(*old(coordinator), *old(round), source, proposal) && is_order_for(
                    order,
                    proposal,
                )
        },
{
    let context = old(coordinator).context();
    let turn = turn_of(*old(coordinator), *old(round), old(effects)@);
    let after = turn_of(*final(coordinator), *final(round), final(effects)@);
    let (reply, flow) = choose|reply: SourceReply, flow: Flow| #[trigger]
        answered(context, old(coordinator).safety(), old(round)@, now, source, reply) && (
        after,
        flow,
    ) == tick_step(context, turn, now, reply@) && result == #[trigger] flow_result(flow);
    assert(after.effects.len() == final(effects)@.len());
    assert(turn.effects.len() == old(effects)@.len());
    assert(after.effects[k] == final(effects)@[k]@);
    law_tick_finalizes_what_was_proposed(context, turn, now, reply, k);
    assert(finalizes_faithfully(context, turn, reply, after.effects[k]));
    if let EffectModel::Finalize { order, outcome } = after.effects[k] {
        let proposal = choose|proposal: ProposalModel| #[trigger]
            knows_proposal(context, turn, reply, proposal) && orders(order, proposal);
        if let Some(offered) = reply.order {
            assert(call_ensures(
                P::transaction_ids,
                (source, old(coordinator).safety().height, old(coordinator).safety().parent_id),
                Some(offered),
            ));
        }
        assert(knows(*old(coordinator), *old(round), source, proposal));
        assert(is_order_for(order, proposal));
    }
}

/// A charge for a block takes from a payer that can pay, and gives to the leader, the fee
/// for the compute that was used, and leaves nothing reserved.
pub proof fn law_charging_moves_the_fee(
    ledger: &mut FeeLedger,
    charge: &Charge,
    leader: Address,
)
    requires
        call_ensures(charge_for_block, (ledger, charge, leader), ()),
        old(ledger)@.reservations == Map::<Hash256, FeeReservation>::empty(),
        payable(old(ledger)@.balances, *charge, leader),
        old(ledger)@.balances.dom().finite(),
        charge.settlement.payer != leader,
    ensures
        ({
            let fee = (charge.settlement.local_base_fee_per_compute
                + charge.settlement.priority_fee_per_compute) * charge.compute_used;
            &&& amount_at(final(ledger)@.balances, charge.settlement.payer) == amount_at(
                old(ledger)@.balances,
                charge.settlement.payer,
            ) - fee
            &&& amount_at(final(ledger)@.balances, leader) == amount_at(
                old(ledger)@.balances,
                leader,
            ) + fee
        }),
{
    let charges = seq![*charge];
    assert(charges.drop_last() =~= Seq::<Charge>::empty());
    assert(charges.take(0) =~= Seq::<Charge>::empty());
    reveal_with_fuel(charged_all, 2);
    reveal_with_fuel(fees_of, 2);
    reveal_with_fuel(fees_but, 2);
    assert(charged_all(old(ledger)@, charges.take(0), leader) == old(ledger)@);
    law_senders_pay_exactly_their_own_fees(
        old(ledger)@,
        charges,
        leader,
        charge.settlement.payer,
    );
    law_senders_pay_exactly_their_own_fees(old(ledger)@, charges, leader, leader);
    assert(charged_all(old(ledger)@, charges, leader) == final(ledger)@);
}

/// A replica that commits votes for the prepared block, locks on it, and stays in its
/// round.
pub proof fn law_committing_locks_on_the_prepared_block<S: AggregateSignatureScheme>(
    replica: &mut Replica<S>,
    prepare: &QuorumCertificate,
    vote: Vote,
)
    requires
        call_ensures(Replica::<S>::vote_to_commit, (replica, prepare), Ok(vote)),
    ensures
        vote.block_id == prepare.block_id,
        vote.phase == VotePhase::Commit,
        vote.height == prepare.height,
        vote.view == prepare.view,
        final(replica).safety().lock is Some,
        final(replica).safety().lock.unwrap().block_id == prepare.block_id,
        final(replica).safety().lock.unwrap().view == prepare.view,
        final(replica).safety().height == old(replica).safety().height,
        final(replica).safety().view == old(replica).safety().view,
{
    assert(vote@.block_id == vote.block_id && vote@.height == vote.height);
    assert(prepare@.block_id == prepare.block_id && prepare@.view == prepare.view);
}

/// A replica that times out votes for no block, and not where it has voted for one in
/// this round.
pub proof fn law_timing_out_votes_for_no_block<S: AggregateSignatureScheme>(
    replica: &mut Replica<S>,
    vote: Vote,
)
    requires
        call_ensures(Replica::<S>::local_timeout, (replica,), Ok(Some(vote))),
    ensures
        vote.block_id == zero_hash(),
        vote.phase == VotePhase::Timeout,
        vote.height == old(replica).safety().height,
        vote.view == old(replica).safety().view,
        !old(replica).safety().votes.contains_key(
            VoteSlot {
                height: old(replica).safety().height,
                view: old(replica).safety().view,
                phase: VotePhase::Order,
            },
        ),
        final(replica).safety().lock == old(replica).safety().lock,
{
    assert(vote@.block_id == vote.block_id && vote@.phase == vote.phase);
}

/// A book of evidence takes a piece of evidence once: what it has taken before it refuses
/// and keeps, and it never forgets any.
pub proof fn law_evidence_is_taken_once<S: AggregateSignatureScheme>(
    book: &mut EvidenceBook,
    evidence: &EquivocationEvidence,
    validators: &ValidatorSet,
    policy: SlashingPolicy,
    scheme: &S,
    result: Result<SlashingDirective, ConsensusError>,
    other: Hash256,
)
    requires
        call_ensures(
            EvidenceBook::record::<S>,
            (book, evidence, validators, policy, scheme),
            result,
        ),
    ensures
        result matches Ok(directive) ==> {
            &&& !old(book)@.contains(directive.evidence_id)
            &&& final(book)@.contains(directive.evidence_id)
        },
        old(book)@.contains(other) ==> final(book)@.contains(other),
        final(book)@.contains(other) && !old(book)@.contains(other) ==> (result matches Ok(
            directive,
        ) && directive.evidence_id == other),
{
}

/// A pipeline that builds a payload keeps it for the height and parent that it is for, and
/// answers with the same one when it is asked again.
pub proof fn law_built_payload_is_kept(
    state: &mut PipelineState,
    height: u64,
    parent_id: Hash256,
    maximum: usize,
    payload: PropagatedBlock,
)
    requires
        call_ensures(
            PipelineState::build_or_get_payload,
            (state, height, parent_id, maximum),
            Ok(payload),
        ),
    ensures
        ({
            let slot = PayloadSlot { height, discriminator: parent_id };
            &&& final(state)@.payloads.contains_key(slot)
            &&& final(state)@.payloads[slot] == payload@
            &&& old(state)@.payloads.contains_key(slot) ==> payload@ == old(state)@.payloads[slot]
                && final(state)@ == old(state)@
            &&& !old(state)@.payloads.contains_key(slot) ==> payload.height == height
                && payload.parent_id == parent_id
            &&& final(state)@.next_nonces == old(state)@.next_nonces
            &&& final(state)@.transactions == old(state)@.transactions
        }),
{
    assert(payload@.height == payload.height && payload@.parent_id == payload.parent_id);
}

/// A pipeline that collects a shred counts it, and gives a payload only once the group of
/// its block has as many shreds as the shred says are needed.
pub proof fn law_collected_shred_is_counted(
    state: &mut PipelineState,
    shred: Shred,
    result: Result<Option<PropagatedBlock>, PipelineError>,
)
    requires
        call_ensures(PipelineState::collect_shred, (state, shred), result),
        old(state)@.shreds_received < u64::MAX,
    ensures
        final(state)@.shreds_received == old(state)@.shreds_received + 1,
        result matches Ok(Some(_)) ==> final(state)@.shreds.contains_key(shred.block_id)
            && final(state)@.shreds[shred.block_id].dom().len() >= shred.data_shards,
        final(state)@.payloads == old(state)@.payloads,
        final(state)@.transactions == old(state)@.transactions,
{
    assert(shred@.block_id == shred.block_id && shred@.data_shards == shred.data_shards);
}

/// A pipeline takes a payload of its peers exactly where every transaction of it is valid
/// and it can be encoded, and is left as it was where it does not.
pub proof fn law_accepted_payload_is_valid(
    state: &mut PipelineState,
    validator: &TransactionValidator,
    block_id: Hash256,
    payload: PropagatedBlock,
    decodings: Vec<PayloadDecoding>,
    result: Result<(), PipelineError>,
)
    requires
        call_ensures(
            PipelineState::accept_payload,
            (state, validator, block_id, payload, decodings),
            result,
        ),
    ensures
        result is Ok ==> forall|i: int|
            0 <= i < payload@.transactions.len() ==> validation_refusal(
                validator@,
                #[trigger] payload@.transactions[i],
                decodings@[i],
            ) is None,
        result is Err ==> final(state)@ == old(state)@,
        result is Ok ==> !final(state)@.shreds.contains_key(block_id),
{
}

/// A lifecycle that records a submission waits for the next height, and one that confirms
/// a commit has committed what the checkpoint says.
pub proof fn law_lifecycle_follows_its_records<S: AggregateSignatureScheme>(
    submitting: &mut BlockLifecycle<S>,
    pending: PendingBlock,
    committing: &mut BlockLifecycle<S>,
    plan: &CommitPlan,
)
    requires
        call_ensures(BlockLifecycle::<S>::record_submission, (submitting, pending), ()),
        call_ensures(BlockLifecycle::<S>::confirm_commit, (committing, plan), ()),
    ensures
        final(submitting)@.submitted_height == pending@.order.height,
        final(submitting)@.submitted_block == pending@.order.block_id,
        final(submitting)@.nonces == pending@.next_nonces,
        final(submitting)@.pending.contains_key(pending@.order.height),
        final(submitting)@.pending[pending@.order.height] == pending@,
        final(submitting)@.ledger == old(submitting)@.ledger,
        final(submitting)@.committed_height == old(submitting)@.committed_height,
        final(committing)@.committed_height == plan.checkpoint@.finalized_height,
        final(committing)@.committed_block == plan.checkpoint@.finalized_block,
        final(committing)@.ledger.balances == plan.checkpoint@.fee_balances,
        !final(committing)@.pending.contains_key(plan.checkpoint@.finalized_height),
        final(committing)@.submitted_height == old(committing)@.submitted_height,
{
}

/// A block that is accepted for execution is the next to run, and one that is refused
/// changes nothing; results are handed out in the order in which they came.
pub proof fn law_deferred_blocks_are_taken_and_handed_out(
    accepting: &mut DeferredExecutor,
    block: OrderedExecutionBlock,
    accepted: Result<(), DeferredExecutionError>,
    handing: &mut DeferredExecutor,
    handed: DeferredExecutionResult,
)
    requires
        call_ensures(DeferredExecutor::submit, (accepting, block), accepted),
        call_ensures(DeferredExecutor::try_result, (handing,), Ok(Some(handed))),
    ensures
        accepted is Ok ==> final(accepting)@.buffered == Some(block) && old(accepting)@.buffered
            is None && !old(accepting)@.stopped,
        accepted is Err ==> final(accepting)@ == old(accepting)@,
        final(accepting)@.running == old(accepting)@.running,
        old(handing)@.completed.len() > 0,
        handed == old(handing)@.completed[0],
        final(handing)@.completed == old(handing)@.completed.skip(1),
{
}

/// A committed attempt adds one receipt with what the attempt returned and accessed; a
/// discarded one adds none.
pub proof fn law_offered_attempt_is_committed_or_discarded(
    commit: &mut OrderedCommit,
    transaction: &ExecutableTransaction,
    attempt: SpeculativeAttempt,
    action: CommitAction,
)
    requires
        call_ensures(OrderedCommit::offer, (commit, transaction, attempt), Ok(action)),
    ensures
        action == CommitAction::Apply ==> {
            let receipts = final(commit)@.pending;
            &&& attempt.result is Some
            &&& receipts.len() == old(commit)@.pending.len() + 1
            &&& receipts.last().result == attempt.result.unwrap()
            &&& receipts.last().accesses == attempt.accesses@
            &&& !attempt.fast ==> forall|id: ObjectId| #[trigger]
                attempt.accesses@.writes.contains(id) ==> final(commit)@.committed_writes.contains(
                    id,
                )
        },
        action == CommitAction::Reexecute ==> final(commit)@.pending == old(commit)@.pending
            && final(commit)@.committed_writes == old(commit)@.committed_writes,
        attempt.fast && attempt.result is Some ==> action == CommitAction::Apply,
        attempt.result is None ==> action == CommitAction::Reexecute,
{
}

/// What a validator finalizes on a message is an order that validators certified: the
/// certificate behind it is accepted and final, and its block is the one of just these
/// transactions and fees.
pub proof fn law_message_finalizes_certified_transactions<S: AggregateSignatureScheme>(
    coordinator: &mut ConsensusCoordinator<S>,
    envelope: Envelope,
    round: &mut RoundState,
    now: u64,
    effects: &mut Vec<Effect>,
    result: Result<Option<CoordinatorOutcome>, CoordinatorError>,
    k: int,
)
    requires
        call_ensures(
            ConsensusCoordinator::<S>::handle,
            (coordinator, envelope, round, now, effects),
            result,
        ),
        undecided(old(coordinator).safety()),
        old(effects)@.len() <= k < final(effects)@.len(),
    ensures
        final(effects)@[k]@ matches EffectModel::Finalize { order, outcome } ==> {
            let identity = old(coordinator).context().identity;
            &&& certificate_check(order.certificate, identity.table, identity.scheme) is Ok
            &&& order.certificate.kind == CertificateKind::Fast || order.certificate.kind
                == CertificateKind::Commit
            &&& order.certificate.height == order.height
            &&& order.certificate.block_id == order.block_id
            &&& exists|parent: Hash256|
                order.block_id == #[trigger] block_id_of(
                    order.height,
                    parent,
                    order.transaction_ids,
                    order.fee_commitment,
                )
            &&& outcome.finalized_block == order.block_id
        },
{
    let context = old(coordinator).context();
    let turn = turn_of(*old(coordinator), *old(round), old(effects)@);
    let after = turn_of(*final(coordinator), *final(round), final(effects)@);
    assert(after.effects.len() == final(effects)@.len());
    assert(turn.effects.len() == old(effects)@.len());
    assert(after.effects[k] == final(effects)@[k]@);
    law_messages_finalize_certified_orders_only(
        context,
        turn,
        envelope.sender,
        envelope.message@,
        now,
        k,
    );
}

} // verus!
