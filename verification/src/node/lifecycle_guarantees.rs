//! What admission, submission and commit are for.

use vstd::prelude::*;

use crate::bytes::text_bytes;
use crate::consensus::certificates::{certificate_check, CertificateKind};
use crate::consensus::proposals::{block_id_of, fee_commitment_of, OrderModel};
use crate::consensus::validators::leader_of;
use crate::crypto::{account_address, AggregateSignatureScheme, CryptoError, SignatureScheme};
use crate::execution::commit::ExecutionReceipt;
use crate::execution::transactions::{sender_of, MoveOperation};
use crate::mempool::fees::{amount_at, FeeReservation, LedgerModel};
use crate::node::lifecycle::{
    admission_refusal, admission_step, admissions, carried_payload, charged, charged_all,
    charges_for, charges_of, checkpoint_of, commits, law_charge_is_exact, next_nonce, payload_magic,
    record_of, submission_result, validation_refusal, with_commit, with_submission, AdmittedModel,
    ApplicationModel, Charge, CompletedBlock, LifecycleModel, PayloadDecoding, PendingBlock,
    PendingModel, SchemesModel,
};
use crate::node::payload::{
    block_encoding, encodable, transaction_encoding, transaction_id, BlockModel,
};
use crate::types::{address_of, hash_of, signed_bytes, Address, Hash256, TransactionModel};

verus! {

/// The sender of an operation is the account that the operation itself names.
pub proof fn law_sender_is_the_operations_own(operation: MoveOperation)
    ensures
        operation matches MoveOperation::PublishModule { sender, .. } ==> sender_of(operation)
            == sender,
        operation matches MoveOperation::EntryFunction(call) ==> sender_of(operation) == call.sender,
        operation matches MoveOperation::CreateObject { sender, .. } ==> sender_of(operation)
            == sender,
        operation matches MoveOperation::MutateObject { sender, .. } ==> sender_of(operation)
            == sender,
        operation matches MoveOperation::DeleteObject { sender, .. } ==> sender_of(operation)
            == sender,
        operation matches MoveOperation::TransferObject { sender, .. } ==> sender_of(operation)
            == sender,
        operation matches MoveOperation::ResurrectObject { sender, .. } ==> sender_of(operation)
            == sender,
{
}

/// Whether a charge is that of a receipt: it names the transaction at the receipt's
/// index, its sender, its limit and its fees, for the compute that the receipt states.
pub open spec fn is_charge_of(
    charge: Charge,
    pending: PendingModel,
    receipt: ExecutionReceipt,
) -> bool {
    let i = receipt.transaction_index as int;
    let execution = pending.transactions[i];
    &&& charge.settlement.transaction_id == pending.order.transaction_ids[i]
    &&& charge.settlement.payer == sender_of(execution.executable.operation)
    &&& charge.settlement.compute_limit == execution.executable.compute_limit
    &&& charge.settlement.local_base_fee_per_compute == execution.base_fee_per_compute
    &&& charge.settlement.priority_fee_per_compute == execution.priority_fee_per_compute
    &&& charge.compute_used == receipt.compute_used
}

/// Every receipt of a block charges the transaction at its own index: there is one
/// charge for each, in their order, to that transaction's sender under that
/// transaction's identifier, limit and fees.
pub proof fn law_each_receipt_charges_its_own_transaction(
    pending: PendingModel,
    receipts: Seq<ExecutionReceipt>,
)
    requires
        pending.transactions.len() == pending.order.transaction_ids.len(),
        forall|k: int|
            0 <= k < receipts.len() ==> (#[trigger] receipts[k]).transaction_index
                < pending.transactions.len(),
    ensures
        charges_of(pending, receipts).len() == receipts.len(),
        forall|k: int|
            0 <= k < receipts.len() ==> is_charge_of(
                #[trigger] charges_of(pending, receipts)[k],
                pending,
                receipts[k],
            ),
    decreases receipts.len(),
{
    if receipts.len() > 0 {
        let shorter = receipts.drop_last();
        assert forall|k: int| 0 <= k < shorter.len() implies (
        #[trigger] shorter[k]).transaction_index < pending.transactions.len() by {
            assert(shorter[k] == receipts[k]);
        }
        law_each_receipt_charges_its_own_transaction(pending, shorter);
        let last = receipts.len() - 1;
        assert(receipts[last].transaction_index < pending.transactions.len());
        assert forall|k: int| 0 <= k < receipts.len() implies is_charge_of(
            #[trigger] charges_of(pending, receipts)[k],
            pending,
            receipts[k],
        ) by {
            if k < last {
                assert(is_charge_of(charges_of(pending, shorter)[k], pending, shorter[k]));
            }
        }
    }
}

/// A receipt for a transaction that the block does not have charges nobody.
pub proof fn law_foreign_receipt_charges_nobody(
    pending: PendingModel,
    receipts: Seq<ExecutionReceipt>,
    foreign: ExecutionReceipt,
)
    requires
        foreign.transaction_index >= pending.transactions.len() || foreign.transaction_index
            >= pending.order.transaction_ids.len(),
    ensures
        charges_of(pending, receipts.push(foreign)) == charges_of(pending, receipts),
{
    assert(receipts.push(foreign).drop_last() =~= receipts);
}

/// What an account is charged: for each of its charges, base fee and tip for the
/// compute used.
pub open spec fn fees_of(charges: Seq<Charge>, payer: Address) -> int
    decreases charges.len(),
{
    if charges.len() == 0 {
        0
    } else {
        let charge = charges.last();
        let settlement = charge.settlement;
        fees_of(charges.drop_last(), payer) + if settlement.payer == payer {
            (settlement.local_base_fee_per_compute + settlement.priority_fee_per_compute)
                * charge.compute_used
        } else {
            0
        }
    }
}

/// What all accounts but one are charged.
pub open spec fn fees_but(charges: Seq<Charge>, leader: Address) -> int
    decreases charges.len(),
{
    if charges.len() == 0 {
        0
    } else {
        let charge = charges.last();
        let settlement = charge.settlement;
        fees_but(charges.drop_last(), leader) + if settlement.payer != leader {
            (settlement.local_base_fee_per_compute + settlement.priority_fee_per_compute)
                * charge.compute_used
        } else {
            0
        }
    }
}

/// Whether a charge can be paid: it stays within its limit, the payer owns enough for
/// the whole limit, and the leader's balance has room for it.
pub open spec fn payable(balances: Map<Address, u128>, charge: Charge, leader: Address) -> bool {
    let settlement = charge.settlement;
    let price = settlement.local_base_fee_per_compute + settlement.priority_fee_per_compute;
    &&& price <= u128::MAX
    &&& charge.compute_used <= settlement.compute_limit
    &&& price * settlement.compute_limit <= amount_at(balances, settlement.payer)
    &&& amount_at(balances, leader) + price * settlement.compute_limit <= u128::MAX
}

/// Once every fee of a block can be paid in its turn, each account but the leader's has
/// lost exactly the fees of its own transactions, and the leader's has gained all of
/// them.
pub proof fn law_senders_pay_exactly_their_own_fees(
    ledger: LedgerModel,
    charges: Seq<Charge>,
    leader: Address,
    account: Address,
)
    requires
        ledger.balances.dom().finite(),
        ledger.reservations == Map::<Hash256, FeeReservation>::empty(),
        forall|k: int|
            0 <= k < charges.len() ==> payable(
                charged_all(ledger, charges.take(k), leader).balances,
                #[trigger] charges[k],
                leader,
            ),
    ensures
        ({
            let after = charged_all(ledger, charges, leader).balances;
            if account == leader {
                amount_at(after, leader) == amount_at(ledger.balances, leader) + fees_but(
                    charges,
                    leader,
                )
            } else {
                amount_at(after, account) == amount_at(ledger.balances, account) - fees_of(
                    charges,
                    account,
                )
            }
        }),
    decreases charges.len(),
{
    crate::node::lifecycle::law_commit_conserves_balances(ledger, charges, leader);
    if charges.len() > 0 {
        let shorter = charges.drop_last();
        let last = charges.len() - 1;
        assert forall|k: int| 0 <= k < shorter.len() implies payable(
            charged_all(ledger, shorter.take(k), leader).balances,
            #[trigger] shorter[k],
            leader,
        ) by {
            assert(shorter.take(k) =~= charges.take(k));
            assert(shorter[k] == charges[k]);
        }
        law_senders_pay_exactly_their_own_fees(ledger, shorter, leader, account);
        crate::node::lifecycle::law_commit_conserves_balances(ledger, shorter, leader);
        let before = charged_all(ledger, shorter, leader);
        assert(charges.take(last) =~= shorter);
        assert(payable(before.balances, charges[last], leader));
        law_charge_is_exact(before, charges[last], leader);
        let after = charged(before, charges[last], leader);
        assert(after == charged_all(ledger, charges, leader));
        assert(amount_at(after.balances, account) == amount_at(after.balances, account));
    }
}

/// A commit is of the next height, and what it writes is of that block: the record
/// names the block, its parent, payload, transactions, certificate and the root that
/// execution reached, and the checkpoint names the same block with the nonces after it
/// and the balances once its fees are charged to the account of the validator that
/// led it.
pub proof fn law_commit_writes_the_next_block<S: AggregateSignatureScheme>(
    application: ApplicationModel<S>,
    state: LifecycleModel,
    completed: CompletedBlock,
    leader: Address,
)
    requires
        application.table.len() > 0,
        state.committed_height < u64::MAX,
        commits(application, state, completed),
        ({
            let order = state.pending[completed.height].order;
            account_address(
                application.scheme.id(),
                application.scheme.key_length(),
                application.table[(order.height + order.certificate.view) % (
                application.table.len() as int)].public_key,
            ) == Ok::<Address, CryptoError>(leader)
        }),
    ensures
        ({
            let pending = state.pending[completed.height];
            let block = completed.result.unwrap();
            let record = record_of(pending, completed);
            let checkpoint = checkpoint_of(application, state, completed);
            let after = with_commit(state, checkpoint);
            &&& completed.height == state.committed_height + 1
            &&& state.pending.contains_key(completed.height)
            &&& completed.result is Ok
            &&& completed.snapshot_root == Some(block.state_root)
            &&& completed.consensus_block_id == pending.order.block_id
            &&& record.height == completed.height
            &&& record.consensus_block_id == pending.order.block_id
            &&& record.parent_id == pending.parent_id
            &&& record.payload_id == pending.payload_id
            &&& record.transaction_ids == pending.order.transaction_ids
            &&& record.state_root == block.state_root
            &&& record.certificate == pending.order.certificate
            &&& checkpoint.finalized_height == completed.height
            &&& checkpoint.finalized_block == pending.order.block_id
            &&& checkpoint.genesis_hash == application.genesis_hash
            &&& checkpoint.next_nonces == pending.next_nonces
            &&& checkpoint.fee_balances == charged_all(
                state.ledger,
                charges_of(pending, block.receipts@),
                leader,
            ).balances
            &&& after.committed_height == completed.height
            &&& after.committed_block == pending.order.block_id
            &&& after.ledger.balances == checkpoint.fee_balances
            &&& !after.pending.contains_key(completed.height)
            &&& forall|height: u64| #[trigger]
                after.pending.contains_key(height) <==> height != completed.height
                    && state.pending.contains_key(height)
            &&& after.submitted_height == state.submitted_height
            &&& after.submitted_block == state.submitted_block
            &&& after.nonces == state.nonces
        }),
{
}

/// The payload of a transaction is what its sender signed: an envelope with the mark
/// counts as it stands; anything else is a bare operation at the lowest bid.
pub proof fn law_bare_payload_bids_the_minimum(decoding: PayloadDecoding)
    ensures
        match carried_payload(decoding) {
            Ok(payload) => if decoding.signed is Some && decoding.signed.unwrap().magic@
                == payload_magic() {
                let signed = decoding.signed.unwrap();
                &&& payload.executable == signed.executable
                &&& payload.max_fee_per_compute == signed.max_fee_per_compute
                &&& payload.priority_fee_per_compute == signed.priority_fee_per_compute
                &&& payload.policy_data == signed.policy_data@
            } else {
                &&& decoding.bare is Ok
                &&& payload.executable == decoding.bare.unwrap()
                &&& payload.max_fee_per_compute == 1
                &&& payload.priority_fee_per_compute == 0
                &&& payload.policy_data.len() == 0
            },
            Err(_) => decoding.bare is Err,
        },
{
}

/// A transaction is valid exactly where its scheme is active, its key is the key of its
/// sender, the sender's signature covers it, and the operation that it carries is its
/// sender's own, may compute something and bids no more tip than it bids in all.
pub proof fn law_valid_transaction_is_signed_by_its_sender(
    schemes: SchemesModel,
    transaction: TransactionModel,
    decoding: PayloadDecoding,
)
    ensures
        validation_refusal(schemes, transaction, decoding) is None <==> {
            let scheme = schemes.registered[transaction.scheme_id];
            &&& schemes.registered.contains_key(transaction.scheme_id)
            &&& schemes.activated.contains(transaction.scheme_id)
            &&& transaction.public_key.len() == scheme.key_length()
            &&& transaction.sender == address_of(scheme.id(), transaction.public_key)
            &&& scheme.verification(
                transaction.public_key,
                signed_bytes(transaction),
                transaction.signature,
            ) is Ok
            &&& carried_payload(decoding) matches Ok(payload) && sender_of(
                payload.executable.operation,
            ) == transaction.sender && payload.executable.compute_limit > 0
                && payload.priority_fee_per_compute <= payload.max_fee_per_compute
        },
{
}

/// A transaction is admitted only at its sender's next nonce, which starts at zero.
pub proof fn law_admission_takes_the_next_nonce(
    schemes: SchemesModel,
    nonces: Map<Address, u64>,
    transaction: TransactionModel,
    decoding: PayloadDecoding,
)
    requires
        encodable(transaction),
        validation_refusal(schemes, transaction, decoding) is None,
    ensures
        admission_refusal(schemes, nonces, transaction, decoding) is None <==> {
            &&& nonces.contains_key(transaction.sender) ==> transaction.nonce
                == nonces[transaction.sender]
            &&& !nonces.contains_key(transaction.sender) ==> transaction.nonce == 0
            &&& transaction.nonce < u64::MAX
        },
{
}

/// What a payload makes execution run is what its transactions carry, one by one, each
/// at its own base fee and within what its sender bids; afterwards each sender's next
/// nonce is one above that of its last transaction.
pub proof fn law_payload_executes_its_transactions(
    schemes: SchemesModel,
    nonces: Map<Address, u64>,
    payload: BlockModel,
    decodings: Seq<PayloadDecoding>,
    count: nat,
)
    requires
        admissions(schemes, nonces, payload, decodings, count) is Ok,
    ensures
        ({
            let admitted = admissions(schemes, nonces, payload, decodings, count).unwrap();
            &&& admitted.executions.len() == count
            &&& forall|i: int|
                0 <= i < count ==> {
                    let execution = #[trigger] admitted.executions[i];
                    let carried = carried_payload(decodings[i]).unwrap();
                    &&& carried_payload(decodings[i]) is Ok
                    &&& validation_refusal(schemes, payload.transactions[i], decodings[i]) is None
                    &&& execution.executable == carried.executable
                    &&& sender_of(execution.executable.operation) == payload.transactions[i].sender
                    &&& execution.base_fee_per_compute == payload.base_fees[i]
                    &&& execution.priority_fee_per_compute == carried.priority_fee_per_compute
                    &&& payload.base_fees[i] + carried.priority_fee_per_compute
                        <= carried.max_fee_per_compute
                }
            &&& count > 0 ==> next_nonce(admitted.nonces, payload.transactions[count - 1].sender)
                == payload.transactions[count - 1].nonce + 1
            &&& forall|sender: Address|
                (forall|i: int|
                    0 <= i < count ==> (#[trigger] payload.transactions[i]).sender != sender)
                    ==> #[trigger] next_nonce(admitted.nonces, sender) == next_nonce(nonces, sender)
        }),
    decreases count,
{
    if count > 0 {
        let i = (count - 1) as nat;
        law_payload_executes_its_transactions(schemes, nonces, payload, decodings, i);
        let before = admissions(schemes, nonces, payload, decodings, i).unwrap();
        let admitted = admissions(schemes, nonces, payload, decodings, count).unwrap();
        assert forall|k: int| 0 <= k < count implies {
            let execution = #[trigger] admitted.executions[k];
            let carried = carried_payload(decodings[k]).unwrap();
            &&& carried_payload(decodings[k]) is Ok
            &&& validation_refusal(schemes, payload.transactions[k], decodings[k]) is None
            &&& execution.executable == carried.executable
            &&& sender_of(execution.executable.operation) == payload.transactions[k].sender
            &&& execution.base_fee_per_compute == payload.base_fees[k]
            &&& execution.priority_fee_per_compute == carried.priority_fee_per_compute
            &&& payload.base_fees[k] + carried.priority_fee_per_compute
                <= carried.max_fee_per_compute
        } by {
            if k < i {
                assert(admitted.executions[k] == before.executions[k]);
            }
        }
        assert forall|sender: Address|
            (forall|k: int|
                0 <= k < count ==> (#[trigger] payload.transactions[k]).sender
                    != sender) implies #[trigger] next_nonce(admitted.nonces, sender) == next_nonce(
            nonces,
            sender,
        ) by {
            assert(payload.transactions[i as int].sender != sender);
            assert(next_nonce(before.nonces, sender) == next_nonce(nonces, sender));
        }
    }
}

/// A payload is submitted only under a final certificate for exactly it: the order's
/// height is the next one, on the block before it, and the certified block commits to
/// the payload's height, parent, transactions in order and base fees.
pub proof fn law_submitted_payload_is_the_certified_one<S: AggregateSignatureScheme>(
    application: ApplicationModel<S>,
    state: LifecycleModel,
    order: OrderModel,
    payload: BlockModel,
    decodings: Seq<PayloadDecoding>,
    pending: PendingModel,
)
    requires
        state.submitted_height < u64::MAX,
        submission_result(application, state, order, payload, decodings) == Ok::<
            PendingModel,
            crate::node::lifecycle::Refusal,
        >(pending),
    ensures
        order.certificate.kind == CertificateKind::Fast || order.certificate.kind
            == CertificateKind::Commit,
        certificate_check(order.certificate, application.table, application.scheme) is Ok,
        order.height == order.certificate.height == payload.height == state.submitted_height + 1,
        order.block_id == order.certificate.block_id,
        payload.parent_id == state.submitted_block,
        order.block_id == block_id_of(
            payload.height,
            payload.parent_id,
            order.transaction_ids,
            fee_commitment_of(payload.base_fees),
        ),
        order.fee_commitment == fee_commitment_of(payload.base_fees),
        order.transaction_ids.len() == payload.transactions.len(),
        forall|i: int|
            0 <= i < payload.transactions.len() ==> #[trigger] order.transaction_ids[i]
                == transaction_id(payload.transactions[i]),
        pending.order == order,
        pending.parent_id == payload.parent_id,
        pending.transactions.len() == payload.transactions.len(),
        ({
            let after = with_submission(state, pending);
            &&& after.submitted_height == state.submitted_height + 1
            &&& after.submitted_block == order.block_id
            &&& after.nonces == pending.next_nonces
            &&& after.pending == state.pending.insert(order.height, pending)
            &&& after.committed_height == state.committed_height
            &&& after.committed_block == state.committed_block
            &&& after.ledger == state.ledger
        }),
{
    law_payload_executes_its_transactions(
        application.schemes,
        state.nonces,
        payload,
        decodings,
        payload.transactions.len(),
    );
}

/// A marked payload is marked by eight letters and digits, and by no others.
pub proof fn law_mark_is_eight_characters()
    ensures
        payload_magic() == seq![
            'K' as u8,
            'S' as u8,
            'T' as u8,
            'R' as u8,
            'T' as u8,
            'X' as u8,
            '0' as u8,
            '1' as u8,
        ],
{
    assert(payload_magic() =~= seq![
        'K' as u8,
        'S' as u8,
        'T' as u8,
        'R' as u8,
        'T' as u8,
        'X' as u8,
        '0' as u8,
        '1' as u8,
    ]);
}

/// A transaction of a payload is taken exactly where it is valid, can be encoded, comes
/// at its sender's next nonce and bids at least the base fee of its place plus its own
/// tip; it then moves its sender's nonce on by one and nobody else's.
pub proof fn law_payload_transaction_is_taken_for_cause(
    schemes: SchemesModel,
    admitted: AdmittedModel,
    transaction: TransactionModel,
    decoding: PayloadDecoding,
    base_fee: u128,
    other: Address,
)
    ensures
        admission_step(schemes, admitted, transaction, decoding, base_fee) is Ok <==> {
            &&& validation_refusal(schemes, transaction, decoding) is None
            &&& encodable(transaction)
            &&& transaction.nonce == if admitted.nonces.contains_key(transaction.sender) {
                admitted.nonces[transaction.sender]
            } else {
                0
            }
            &&& transaction.nonce < u64::MAX
            &&& carried_payload(decoding) is Ok
            &&& base_fee + carried_payload(decoding).unwrap().priority_fee_per_compute
                <= carried_payload(decoding).unwrap().max_fee_per_compute
        },
        admission_step(schemes, admitted, transaction, decoding, base_fee) matches Ok(after) ==> {
            &&& after.executions.len() == admitted.executions.len() + 1
            &&& after.executions.drop_last() == admitted.executions
            &&& after.nonces.contains_key(transaction.sender)
            &&& after.nonces[transaction.sender] == transaction.nonce + 1
            &&& other != transaction.sender ==> (after.nonces.contains_key(other)
                <==> admitted.nonces.contains_key(other)) && (after.nonces.contains_key(other)
                ==> after.nonces[other] == admitted.nonces[other])
        },
{
    if let Ok(after) = admission_step(schemes, admitted, transaction, decoding, base_fee) {
        assert(after.executions.drop_last() =~= admitted.executions);
    }
}

/// A payload is submitted exactly where a final certificate of the next height stands
/// behind it, it builds on what was submitted last, its transactions are all taken, and
/// the certified block is the one of its transactions and fees.
pub proof fn law_payload_is_submitted_for_cause<S: AggregateSignatureScheme>(
    application: ApplicationModel<S>,
    state: LifecycleModel,
    order: OrderModel,
    payload: BlockModel,
    decodings: Seq<PayloadDecoding>,
)
    requires
        state.submitted_height < u64::MAX,
    ensures
        submission_result(application, state, order, payload, decodings) is Ok <==> {
            &&& order.certificate.kind == CertificateKind::Fast || order.certificate.kind
                == CertificateKind::Commit
            &&& certificate_check(order.certificate, application.table, application.scheme) is Ok
            &&& order.certificate.height == order.height
            &&& order.certificate.block_id == order.block_id
            &&& payload.height == order.height
            &&& order.height == state.submitted_height + 1
            &&& payload.parent_id == state.submitted_block
            &&& payload.base_fees.len() == payload.transactions.len()
            &&& admissions(
                application.schemes,
                state.nonces,
                payload,
                decodings,
                payload.transactions.len(),
            ) is Ok
            &&& order.transaction_ids.len() == payload.transactions.len()
            &&& forall|i: int|
                0 <= i < payload.transactions.len() ==> #[trigger] order.transaction_ids[i]
                    == transaction_id(payload.transactions[i])
            &&& order.fee_commitment == fee_commitment_of(payload.base_fees)
            &&& order.block_id == block_id_of(
                payload.height,
                payload.parent_id,
                order.transaction_ids,
                order.fee_commitment,
            )
            &&& crate::node::payload::encodable_block(payload)
        },
{
    let ids = crate::node::payload::ids_of(payload.transactions);
    if order.transaction_ids.len() == payload.transactions.len() && (forall|i: int|
        0 <= i < payload.transactions.len() ==> #[trigger] order.transaction_ids[i]
            == transaction_id(payload.transactions[i])) {
        assert(order.transaction_ids =~= ids);
    }
    if order.transaction_ids == ids {
        assert forall|i: int| 0 <= i < payload.transactions.len() implies
            #[trigger] order.transaction_ids[i] == transaction_id(payload.transactions[i]) by {
            assert(ids[i] == transaction_id(payload.transactions[i]));
        }
    }
}

/// A completed block commits exactly where it is the next one, was submitted under that
/// identity, ran, and left the state whose root its snapshot has; the leader's key is
/// then one that fees can be paid to.
pub proof fn law_block_commits_for_cause<S: AggregateSignatureScheme>(
    application: ApplicationModel<S>,
    state: LifecycleModel,
    completed: CompletedBlock,
)
    requires
        state.committed_height < u64::MAX,
    ensures
        commits(application, state, completed) <==> {
            let order = state.pending[completed.height].order;
            &&& completed.height == state.committed_height + 1
            &&& state.pending.contains_key(completed.height)
            &&& completed.consensus_block_id == order.block_id
            &&& completed.result is Ok
            &&& completed.snapshot_root == Some(completed.result.unwrap().state_root)
            &&& leader_of(
                application.table,
                order.height,
                order.certificate.view,
            ).public_key.len() == application.scheme.key_length()
        },
{
}

/// A transaction is identified by the digest of its whole encoding, in a domain of its
/// own, and a pending block by the digest of the payload that it came from.
pub proof fn law_transactions_are_identified_by_their_encoding<S: AggregateSignatureScheme>(
    transaction: TransactionModel,
    application: ApplicationModel<S>,
    state: LifecycleModel,
    order: OrderModel,
    payload: BlockModel,
    decodings: Seq<PayloadDecoding>,
)
    ensures
        transaction_id(transaction) == hash_of(
            text_bytes("kestrel/transaction/id/v1") + transaction_encoding(transaction),
        ),
        submission_result(application, state, order, payload, decodings) matches Ok(pending)
            ==> pending.payload_id == hash_of(block_encoding(payload)),
{
}

/// What is charged for a block is one charge for each receipt, and each is of the very
/// transaction that its receipt is of.
pub proof fn law_block_is_charged_receipt_by_receipt(
    pending: &PendingBlock,
    receipts: &[ExecutionReceipt],
    charges: Vec<Charge>,
)
    requires
        call_ensures(charges_for, (pending, receipts), charges),
        pending@.transactions.len() == pending@.order.transaction_ids.len(),
        forall|k: int|
            0 <= k < receipts@.len() ==> (#[trigger] receipts@[k]).transaction_index
                < pending@.transactions.len(),
    ensures
        charges@.len() == receipts@.len(),
        forall|k: int|
            0 <= k < receipts@.len() ==> is_charge_of(
                #[trigger] charges@[k],
                pending@,
                receipts@[k],
            ),
{
    law_each_receipt_charges_its_own_transaction(pending@, receipts@);
}

} // verus!
