//! The value of a record is what its fields hold: none is left out, and none is made up.

use vstd::prelude::*;

use crate::consensus::certificates::QuorumCertificate;
use crate::consensus::proposals::{FinalizedOrder, Proposal, SignedProposal};
use crate::consensus::replica::ReplicaSnapshot;
use crate::consensus::validators::Validator;
use crate::consensus::votes::Vote;
use crate::execution::commit::{pending_models, receipt_models, ExecutionReceipt, PendingReceipt};
use crate::execution::scheduling::{task_models, SpeculationTask, StateAccesses, TaskModel};
use crate::network::kestrel_cast::{shred_models, Shred};
use crate::network::service::OutboundShred;
use crate::node::coordinator::{CoordinatorFaults, SourceReply};
use crate::node::genesis::{balance_list, GenesisDocument, GenesisValidator};
use crate::node::lifecycle::{
    DurableBlockRecord, DurableCheckpoint, PendingBlock, SignedExecutionPayload,
};
use crate::node::payload::{transaction_models, PropagatedBlock};
use crate::node::propagation::outbound_models;
use crate::node::round::{effects_of, Effect, EffectModel, WireMessage, WireModel};
use crate::ordered::{lemma_sorted_keys_of_finite, sorted_keys};
use crate::types::{Address, Object, Transaction};

verus! {

/// Votes, certificates, proposals and orders.
pub proof fn law_values_of_consensus_records(
    vote: Vote,
    certificate: QuorumCertificate,
    proposal: Proposal,
    signed: SignedProposal,
    order: FinalizedOrder,
    validator: Validator,
    snapshot: ReplicaSnapshot,
)
    ensures
        vote@.validator == vote.validator,
        vote@.height == vote.height,
        vote@.view == vote.view,
        vote@.block_id == vote.block_id,
        vote@.phase == vote.phase,
        vote@.signature == vote.signature@,
        certificate@.kind == certificate.kind,
        certificate@.height == certificate.height,
        certificate@.view == certificate.view,
        certificate@.block_id == certificate.block_id,
        certificate@.signers == certificate.signers@,
        certificate@.signed_stake == certificate.signed_stake,
        certificate@.aggregate_signature == certificate.aggregate_signature@,
        proposal@.height == proposal.height,
        proposal@.view == proposal.view,
        proposal@.parent_id == proposal.parent_id,
        proposal@.proposer == proposal.proposer,
        proposal@.transaction_ids == proposal.transaction_ids@,
        proposal@.fee_commitment == proposal.fee_commitment,
        proposal@.block_id == proposal.block_id,
        proposal@.justify is Some <==> proposal.justify is Some,
        proposal.justify matches Some(justify) ==> proposal@.justify == Some(justify@),
        signed@.proposal == signed.proposal@,
        signed@.signature == signed.signature@,
        order@.height == order.height,
        order@.block_id == order.block_id,
        order@.transaction_ids == order.transaction_ids@,
        order@.fee_commitment == order.fee_commitment,
        order@.certificate == order.certificate@,
        validator@.id == validator.id,
        validator@.stake == validator.stake,
        validator@.public_key == validator.public_key@,
        validator@.proof_of_possession == validator.proof_of_possession@,
        snapshot@.height == snapshot.height,
        snapshot@.view == snapshot.view,
        snapshot@.parent_id == snapshot.parent_id,
        snapshot@.lock == snapshot.lock,
        snapshot@.votes == snapshot.votes@,
        snapshot@.finalized == snapshot.finalized@,
{
}

/// Transactions, objects and blocks on their way.
pub proof fn law_values_of_transactions_and_blocks(
    transaction: Transaction,
    object: Object,
    block: PropagatedBlock,
    payload: SignedExecutionPayload,
    shred: Shred,
    outbound: OutboundShred,
)
    ensures
        transaction@.sender == transaction.sender,
        transaction@.nonce == transaction.nonce,
        transaction@.payload == transaction.payload@,
        transaction@.scheme_id == transaction.scheme_id,
        transaction@.public_key == transaction.public_key@,
        transaction@.signature == transaction.signature@,
        object@.id == object.id,
        object@.owner == object.owner,
        object@.type_tag == object.type_tag@,
        object@.version == object.version,
        object@.data == object.data@,
        object@.rent_balance == object.rent_balance,
        block@.height == block.height,
        block@.parent_id == block.parent_id,
        block@.base_fees == block.base_fees@,
        block@.transactions.len() == block.transactions@.len(),
        forall|i: int|
            0 <= i < block.transactions@.len() ==> #[trigger] block@.transactions[i]
                == block.transactions@[i]@,
        payload@.executable == payload.executable,
        payload@.max_fee_per_compute == payload.max_fee_per_compute,
        payload@.priority_fee_per_compute == payload.priority_fee_per_compute,
        payload@.policy_data == payload.policy_data@,
        shred@.block_id == shred.block_id,
        shred@.index == shred.index,
        shred@.data_shards == shred.data_shards,
        shred@.parity_shards == shred.parity_shards,
        shred@.original_len == shred.original_len,
        shred@.payload == shred.payload@,
        outbound@.peer == outbound.peer@,
        outbound@.shred == outbound.shred@,
        outbound@.relay_requested == outbound.relay_requested,
{
}

/// Receipts, and what is kept of a block.
pub proof fn law_values_of_execution_records(
    receipt: ExecutionReceipt,
    unrooted: PendingReceipt,
    accesses: StateAccesses,
    pending: PendingBlock,
    record: DurableBlockRecord,
    checkpoint: DurableCheckpoint,
)
    ensures
        receipt@.transaction_index == receipt.transaction_index,
        receipt@.result.event_count == receipt.event_count,
        receipt@.result.compute_used == receipt.compute_used,
        receipt@.accesses.reads == receipt.read_set@,
        receipt@.accesses.writes == receipt.write_set@,
        receipt@.path == receipt.path,
        receipt@.attempts == receipt.attempts,
        unrooted@.transaction_index == unrooted.transaction_index,
        unrooted@.result == unrooted.result,
        unrooted@.accesses == unrooted.accesses@,
        unrooted@.path == unrooted.path,
        unrooted@.attempts == unrooted.attempts,
        accesses@.reads == accesses.reads@,
        accesses@.writes == accesses.writes@,
        pending@.order == pending.order@,
        pending@.parent_id == pending.parent_id,
        pending@.payload_id == pending.payload_id,
        pending@.next_nonces == pending.next_nonces@,
        pending@.transactions == pending.transactions@,
        record@.height == record.height,
        record@.consensus_block_id == record.consensus_block_id,
        record@.parent_id == record.parent_id,
        record@.payload_id == record.payload_id,
        record@.transaction_ids == record.transaction_ids@,
        record@.state_root == record.state_root,
        record@.certificate == record.certificate@,
        checkpoint@.format_version == checkpoint.format_version,
        checkpoint@.genesis_hash == checkpoint.genesis_hash,
        checkpoint@.finalized_height == checkpoint.finalized_height,
        checkpoint@.finalized_block == checkpoint.finalized_block,
        checkpoint@.next_nonces == checkpoint.next_nonces@,
        checkpoint@.fee_balances == checkpoint.fee_balances@,
{
}

/// Messages between validators.
pub proof fn law_values_of_messages(message: WireMessage)
    ensures
        message matches WireMessage::Proposal(signed) ==> message@ == WireModel::Proposal(signed@),
        message matches WireMessage::Vote(vote) ==> message@ == WireModel::Vote(vote@),
        message matches WireMessage::Certificate { certificate, transaction_ids, fee_commitment }
            ==> (message@ matches WireModel::Certificate {
            certificate: value,
            transaction_ids: ids,
            fee_commitment: fees,
        } && value == certificate@ && fees == fee_commitment && (ids is Some
            <==> transaction_ids is Some) && (transaction_ids matches Some(list) ==> ids == Some(
            list@,
        ))),
        message matches WireMessage::RequestOrders { from_height } ==> message@
            == (WireModel::RequestOrders { from_height }),
        message matches WireMessage::Orders(orders) ==> (message@ matches WireModel::Orders(values)
            && values.len() == orders@.len() && forall|i: int|
            0 <= i < orders@.len() ==> #[trigger] values[i] == orders@[i]@),
{
}

/// What a validator asks its node to do.
pub proof fn law_values_of_effects(effect: Effect)
    ensures
        effect matches Effect::Persist { snapshot } ==> effect@ == (EffectModel::Persist {
            state: snapshot@,
        }),
        effect matches Effect::Broadcast { message } ==> effect@ == (EffectModel::Broadcast {
            message: message@,
        }),
        effect matches Effect::Send { peer, message } ==> effect@ == (EffectModel::Send {
            peer,
            message: message@,
        }),
        effect matches Effect::Finalize { order, outcome } ==> effect@ == (EffectModel::Finalize {
            order: order@,
            outcome,
        }),
        effect matches Effect::ServeOrders { peer, from_height } ==> effect@
            == (EffectModel::ServeOrders { peer, from_height }),
{
}

/// What a source answers, and the faults that a validator is given.
pub proof fn law_values_of_answers_and_faults(reply: SourceReply, faults: CoordinatorFaults)
    ensures
        reply@.is_empty == reply.is_empty,
        reply@.order is Some <==> reply.order is Some,
        reply.order matches Some(order) ==> reply@.order == Some(
            (order.transaction_ids@, order.fee_commitment),
        ),
        faults@.withhold_votes == faults.withhold_votes,
        faults@.certificate_emission == faults.certificate_emission,
        faults@.corrupt_votes == faults.corrupt_votes,
        faults@.equivocate_when_leader == faults.equivocate_when_leader,
        faults@.blocked_peers == faults.blocked_peers@,
        faults@.outbound_delay_ms == faults.outbound_delay_ms,
        faults@.drop_basis_points == faults.drop_basis_points,
        faults@.proposal_delay_ms == faults.proposal_delay_ms,
{
}

/// Genesis documents and the validators that they list.
pub proof fn law_values_of_genesis(document: GenesisDocument, entry: GenesisValidator)
    ensures
        entry@.name == entry.name@,
        entry@.validator == entry.validator@,
        entry@.network_address == entry.network_address@,
        entry@.rpc_address == entry.rpc_address@,
        entry@.gossip_peer_id == entry.gossip_peer_id@,
        entry@.gossip_address == entry.gossip_address@,
        document@.format_version == document.format_version,
        document@.chain_id == document.chain_id@,
        document@.genesis_unix_ms == document.genesis_unix_ms,
        document@.blocks_per_epoch == document.blocks_per_epoch,
        document@.state_config == document.state_config@,
        document@.active_signature_schemes == document.active_signature_schemes@,
        document@.equivocation_slash_basis_points == document.equivocation_slash_basis_points,
        document@.validators.len() == document.validators@.len(),
        forall|i: int|
            0 <= i < document.validators@.len() ==> #[trigger] document@.validators[i]
                == document.validators@[i]@,
        document@.initial_objects.len() == document.initial_objects@.len(),
        forall|i: int|
            0 <= i < document.initial_objects@.len() ==> #[trigger] document@.initial_objects[i]
                == document.initial_objects@[i]@,
{
}

/// The value of a list is the list of the values, place by place.
pub proof fn law_values_of_lists(
    receipts: Seq<ExecutionReceipt>,
    unrooted: Seq<PendingReceipt>,
    shreds: Seq<Shred>,
    transactions: Seq<Transaction>,
    effects: Seq<Effect>,
    tasks: Seq<SpeculationTask>,
    sends: Seq<OutboundShred>,
    i: int,
)
    ensures
        receipt_models(receipts).len() == receipts.len(),
        0 <= i < receipts.len() ==> receipt_models(receipts)[i] == receipts[i]@,
        pending_models(unrooted).len() == unrooted.len(),
        0 <= i < unrooted.len() ==> pending_models(unrooted)[i] == unrooted[i]@,
        shred_models(shreds).len() == shreds.len(),
        0 <= i < shreds.len() ==> shred_models(shreds)[i] == shreds[i]@,
        transaction_models(transactions).len() == transactions.len(),
        0 <= i < transactions.len() ==> transaction_models(transactions)[i] == transactions[i]@,
        effects_of(effects).len() == effects.len(),
        0 <= i < effects.len() ==> effects_of(effects)[i] == effects[i]@,
        task_models(tasks).len() == tasks.len(),
        0 <= i < tasks.len() ==> task_models(tasks)[i] == tasks[i]@,
        outbound_models(sends).len() == sends.len(),
        0 <= i < sends.len() ==> outbound_models(sends)[i] == sends[i]@,
{
}

/// The value of a task names its transactions by their positions in the block.
pub proof fn law_values_of_tasks(task: SpeculationTask)
    ensures
        task matches SpeculationTask::Optimistic(index) ==> task@ == TaskModel::Optimistic(
            index as int,
        ),
        task matches SpeculationTask::FastLane(indexes) ==> (task@ matches TaskModel::FastLane(
            positions,
        ) && positions.len() == indexes@.len() && forall|i: int|
            0 <= i < indexes@.len() ==> #[trigger] positions[i] == indexes@[i]),
{
}

/// Balances are listed by address, each account once with what it holds.
pub proof fn law_balances_are_listed(balances: Map<Address, u128>, address: Address)
    requires
        balances.dom().finite(),
    ensures
        balances.contains_key(address) ==> balance_list(balances).contains(
            (address.bytes, balances[address]),
        ),
        forall|i: int|
            0 <= i < balance_list(balances).len() ==> exists|holder: Address| #[trigger]
                balances.contains_key(holder) && (#[trigger] balance_list(balances)[i]).0
                    == holder.bytes && balance_list(balances)[i].1 == balances[holder],
{
    let keys = sorted_keys(balances.dom());
    lemma_sorted_keys_of_finite(balances.dom());
    if balances.contains_key(address) {
        assert(keys.contains(address));
        let k = choose|k: int| 0 <= k < keys.len() && keys[k] == address;
        assert(balance_list(balances)[k] == (address.bytes, balances[address]));
    }
    assert forall|i: int| 0 <= i < balance_list(balances).len() implies exists|holder: Address|
        #[trigger] balances.contains_key(holder) && (#[trigger] balance_list(balances)[i]).0
            == holder.bytes && balance_list(balances)[i].1 == balances[holder] by {
        assert(keys.contains(keys[i]));
        assert(balances.contains_key(keys[i]));
    }
}

} // verus!
