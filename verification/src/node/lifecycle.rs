//! The application side of the chain: which signed transactions are admitted,
//! which finalized payloads are executed, and what a commit settles and stores.

use std::sync::Arc;

use vstd::prelude::*;

use crate::bytes::{append_be64, append_text, be64, text_bytes};
use crate::consensus::certificates::{
    certificate_check, copy_ids, verify_certificate, CertificateKind, CertificateModel,
    QuorumCertificate,
};
use crate::consensus::errors::ConsensusError;
use crate::consensus::proposals::{
    block_id_of, fee_commitment_of, proposal_id, FinalizedOrder, OrderModel,
};
use crate::consensus::validators::{leader_of, ValidatorModel, ValidatorSet};
use crate::crypto::{
    account_address, AggregateSignatureScheme, Bls12381Scheme, CryptoError, Ed25519Scheme,
    SchemeRegistry, SignatureScheme, TransactionScheme, BLS12381_SCHEME_ID, ED25519_SCHEME_ID,
};
use crate::execution::commit::{BlockExecutionResult, ExecutionReceipt};
use crate::execution::deferred::DeferredExecutionError;
use crate::execution::transactions::{sender_of, ExecutableTransaction, ExecutionError};
use crate::mempool::fees::{
    amount_at, bind_result, bound, circulating, creditable_at, lemma_put, pending_credit, released,
    reserve_result, reserved, reserved_for, settle_result, settled, unit_price, FeeLedger,
    FeeReservation, LedgerModel, Settlement,
};
use crate::network::kestrel_cast::KestrelCastError;
use crate::node::genesis::GenesisError;
use crate::node::payload::{
    block_encoding, encodable, encodable_block, ids_of, signed_transaction_id, transaction_id,
    BlockModel, PropagatedBlock,
};
use crate::ordered::{lemma_sum_insert, OrderedMap};
use crate::types::{
    hash_of, signed_bytes, Address, Hash256, SchemeId, Transaction, TransactionModel,
};

verus! {

/// Why the block lifecycle refused a transaction, a payload or a commit.
#[derive(Debug, PartialEq, Eq)]
pub enum LifecycleError {
    Genesis(GenesisError),
    Consensus(ConsensusError),
    Crypto(CryptoError),
    State(String),
    Storage(String),
    Execution(ExecutionError),
    DeferredExecution(DeferredExecutionError),
    KestrelCast(KestrelCastError),
    Io(String),
    Encoding(String),
    /// The durable checkpoint belongs to a different genesis or format.
    CheckpointGenesisMismatch,
    /// The certificate is not a final fast or fallback-commit certificate.
    NonFinalCertificate,
    /// The finalized order does not match the propagated payload or local chain head.
    OrderMismatch,
    /// The transaction sender does not match its active signature key or executable payload.
    SenderMismatch,
    NonceMismatch { expected: u64, received: u64 },
    NonceOverflow,
    /// The signed transaction fee bid is invalid.
    InvalidFeeBid,
    /// Deferred execution completed outside canonical height/block order.
    CommitOrderMismatch,
    ExecutionFailed(String),
    /// Successful deferred execution omitted its durable state snapshot.
    MissingStateSnapshot,
    /// Execution result and durable state snapshot roots differ.
    CommitRootMismatch,
    /// The shared state lock was poisoned.
    LockPoisoned,
    /// The durable pending-block log is corrupt.
    PendingReplayGap { expected: u64, found: u64 },
    /// The propagated block's base fee count does not match its transaction count.
    FeeCountMismatch,
    /// The declared local base fee does not fit the transaction's signed fee cap.
    FeeCapExceeded,
}

/// Format of the durable checkpoint.
pub const CHECKPOINT_FORMAT_VERSION: u16 = 2;

/// The mark at the start of a signed execution payload.
pub open spec fn payload_magic() -> Seq<u8> {
    seq![75u8, 83u8, 84u8, 82u8, 84u8, 88u8, 48u8, 49u8]
}

/// Execution and fee metadata covered by the account signature. Keeping the fee
/// bid inside the signed payload prevents gossip peers from rewriting ordering
/// priority without invalidating the signature.
///
/// The compute bound lives solely on the executable, so there is exactly one
/// number a sender can set, rather than two that could diverge.
#[derive(Debug, PartialEq, Eq)]
pub struct SignedExecutionPayload {
    pub magic: [u8; 8],
    pub executable: ExecutableTransaction,
    pub max_fee_per_compute: u128,
    pub priority_fee_per_compute: u128,
    pub policy_data: Vec<u8>,
}

/// The value of a signed execution payload, without its mark.
pub struct PayloadModel {
    pub executable: ExecutableTransaction,
    pub max_fee_per_compute: u128,
    pub priority_fee_per_compute: u128,
    pub policy_data: Seq<u8>,
}

impl View for SignedExecutionPayload {
    type V = PayloadModel;

    open spec fn view(&self) -> PayloadModel {
        PayloadModel {
            executable: self.executable,
            max_fee_per_compute: self.max_fee_per_compute,
            priority_fee_per_compute: self.priority_fee_per_compute,
            policy_data: self.policy_data@,
        }
    }
}

impl SignedExecutionPayload {
    /// A payload that carries the mark.
    pub fn new(
        executable: ExecutableTransaction,
        max_fee_per_compute: u128,
        priority_fee_per_compute: u128,
        policy_data: Vec<u8>,
    ) -> (payload: Self)
        ensures
            payload.magic@ == payload_magic(),
            payload@ == (PayloadModel {
                executable,
                max_fee_per_compute,
                priority_fee_per_compute,
                policy_data: policy_data@,
            }),
    {
        let magic: [u8; 8] = [75, 83, 84, 82, 84, 88, 48, 49];
        assert(magic@ =~= payload_magic());
        SignedExecutionPayload {
            magic,
            executable,
            max_fee_per_compute,
            priority_fee_per_compute,
            policy_data,
        }
    }

    /// Whether the payload carries the mark.
    pub fn is_marked(&self) -> (marked: bool)
        ensures
            marked == (self.magic@ == payload_magic()),
    {
        let marked = self.magic[0] == 75 && self.magic[1] == 83 && self.magic[2] == 84
            && self.magic[3] == 82 && self.magic[4] == 84 && self.magic[5] == 88 && self.magic[6]
            == 48 && self.magic[7] == 49;
        proof {
            if marked {
                assert(self.magic@ =~= payload_magic());
            }
        }
        marked
    }
}

/// How the payload bytes of a transaction decode: as a signed execution payload,
/// and as an executable alone.
#[derive(Debug)]
pub struct PayloadDecoding {
    pub signed: Option<SignedExecutionPayload>,
    pub bare: Result<ExecutableTransaction, String>,
}

/// The payload that a transaction carries: a marked one, or else an executable
/// alone with the lowest fee bid.
pub open spec fn carried_payload(decoding: PayloadDecoding) -> Result<PayloadModel, LifecycleError> {
    if decoding.signed matches Some(signed) && signed.magic@ == payload_magic() {
        Ok(decoding.signed.unwrap()@)
    } else {
        match decoding.bare {
            Ok(executable) => Ok(
                PayloadModel {
                    executable,
                    max_fee_per_compute: 1,
                    priority_fee_per_compute: 0,
                    policy_data: Seq::empty(),
                },
            ),
            Err(reason) => Err(LifecycleError::Encoding(reason)),
        }
    }
}

/// The payload that a transaction carries.
///
/// # Errors
///
/// Rejects bytes that decode neither way.
pub fn decode_execution_payload(decoding: PayloadDecoding) -> (result: Result<
    SignedExecutionPayload,
    LifecycleError,
>)
    ensures
        match result {
            Ok(payload) => carried_payload(decoding) == Ok::<PayloadModel, LifecycleError>(payload@),
            Err(error) => carried_payload(decoding) == Err::<PayloadModel, LifecycleError>(error),
        },
{
    if let Some(payload) = decoding.signed {
        if payload.is_marked() {
            return Ok(payload);
        }
    }
    match decoding.bare {
        Ok(executable) => {
            let policy_data: Vec<u8> = Vec::new();
            assert(policy_data@ =~= Seq::empty());
            Ok(SignedExecutionPayload::new(executable, 1, 0, policy_data))
        },
        Err(reason) => Err(LifecycleError::Encoding(reason)),
    }
}

/// Stateless signature, sender, executable-payload, and signed-fee validator
/// shared by gossip admission and finalized block execution.
pub struct TransactionValidator {
    schemes: SchemeRegistry<TransactionScheme>,
}

/// The active signature schemes.
pub struct SchemesModel {
    pub registered: Map<SchemeId, TransactionScheme>,
    pub activated: Set<SchemeId>,
}

impl View for TransactionValidator {
    type V = SchemesModel;

    closed spec fn view(&self) -> SchemesModel {
        SchemesModel { registered: self.schemes.registered(), activated: self.schemes.activated() }
    }
}

/// The supported signature schemes by number.
pub open spec fn supported_schemes() -> Map<SchemeId, TransactionScheme> {
    map![
        ED25519_SCHEME_ID => TransactionScheme::Ed25519(Ed25519Scheme),
        BLS12381_SCHEME_ID => TransactionScheme::Bls12381(Bls12381Scheme),
    ]
}

/// Whether every one of the schemes is supported.
pub open spec fn all_supported(schemes: Seq<SchemeId>) -> bool {
    forall|id: SchemeId| #[trigger]
        schemes.contains(id) ==> supported_schemes().contains_key(id)
}

/// Whether a scheme is the lowest of the schemes that is not supported.
pub open spec fn lowest_unsupported(schemes: Seq<SchemeId>, id: SchemeId) -> bool {
    &&& schemes.contains(id)
    &&& !supported_schemes().contains_key(id)
    &&& forall|other: SchemeId| #[trigger]
        schemes.contains(other) && !supported_schemes().contains_key(other) ==> id <= other
}

/// The schemes of a chain that activates some.
pub open spec fn activated_schemes(schemes: Seq<SchemeId>) -> SchemesModel {
    SchemesModel { registered: supported_schemes(), activated: schemes.to_set() }
}

/// Why a transaction is refused; `None` where only its encoding can fail it.
pub open spec fn validation_refusal(
    schemes: SchemesModel,
    transaction: TransactionModel,
    decoding: PayloadDecoding,
) -> Option<LifecycleError> {
    let id = transaction.scheme_id;
    if !schemes.registered.contains_key(id) {
        Some(LifecycleError::Crypto(CryptoError::UnknownScheme(id)))
    } else if !schemes.activated.contains(id) {
        Some(LifecycleError::Crypto(CryptoError::InactiveScheme(id)))
    } else {
        let scheme = schemes.registered[id];
        match account_address(scheme.id(), scheme.key_length(), transaction.public_key) {
            Err(error) => Some(LifecycleError::Crypto(error)),
            Ok(address) => if address != transaction.sender {
                Some(LifecycleError::SenderMismatch)
            } else {
                match scheme.verification(
                    transaction.public_key,
                    signed_bytes(transaction),
                    transaction.signature,
                ) {
                    Err(error) => Some(LifecycleError::Crypto(error)),
                    Ok(()) => match carried_payload(decoding) {
                        Err(error) => Some(error),
                        Ok(payload) => if sender_of(payload.executable.operation)
                            != transaction.sender {
                            Some(LifecycleError::SenderMismatch)
                        } else if payload.executable.compute_limit == 0
                            || payload.max_fee_per_compute < payload.priority_fee_per_compute {
                            Some(LifecycleError::InvalidFeeBid)
                        } else {
                            None
                        },
                    },
                }
            },
        }
    }
}

impl TransactionValidator {
    /// Builds the active signature registry from the schemes that genesis activates.
    ///
    /// # Errors
    ///
    /// Rejects the activation of an unsupported scheme; the lowest such is reported.
    pub fn from_genesis(active_signature_schemes: Vec<SchemeId>) -> (result: Result<
        Self,
        LifecycleError,
    >)
        ensures
            match result {
                Ok(validator) => all_supported(active_signature_schemes@) && validator@
                    == activated_schemes(active_signature_schemes@),
                Err(LifecycleError::Crypto(CryptoError::ActivatedSchemeMissing(id))) =>
                    lowest_unsupported(active_signature_schemes@, id),
                Err(_) => false,
            },
    {
        let mut supported: Vec<TransactionScheme> = Vec::new();
        supported.push(TransactionScheme::Ed25519(Ed25519Scheme));
        supported.push(TransactionScheme::Bls12381(Bls12381Scheme));
        let ghost list = supported@;
        let ghost ids = crate::crypto::scheme_ids(list);
        let ghost active = active_signature_schemes@;
        proof {
            assert(ids =~= seq![ED25519_SCHEME_ID, BLS12381_SCHEME_ID]);
            assert forall|i: int| !crate::crypto::repeats_earlier(ids, i) by {
                if i == 1 {
                    assert(ids.take(1) =~= seq![ED25519_SCHEME_ID]);
                } else if i == 0 {
                    assert(ids.take(0) =~= Seq::<SchemeId>::empty());
                }
            }
            assert forall|id: SchemeId| ids.contains(id) <==> id == ED25519_SCHEME_ID || id
                == BLS12381_SCHEME_ID by {
                assert(ids[0] == ED25519_SCHEME_ID && ids[1] == BLS12381_SCHEME_ID);
            }
        }
        match SchemeRegistry::from_genesis_config(supported, active_signature_schemes) {
            Ok(schemes) => {
                proof {
                    let registered = schemes.registered();
                    assert(list[0].id() == ED25519_SCHEME_ID && list[1].id() == BLS12381_SCHEME_ID);
                    assert(registered[list[0].id()] == list[0]);
                    assert(registered[list[1].id()] == list[1]);
                    assert(registered =~= supported_schemes());
                }
                Ok(TransactionValidator { schemes })
            },
            Err(error) => Err(LifecycleError::Crypto(error)),
        }
    }

    /// Validates one untrusted signed envelope without reserving its nonce.
    ///
    /// # Errors
    ///
    /// Rejects inactive schemes, bad keys/signatures, sender mismatches,
    /// malformed execution payloads, and invalid signed fee bids.
    pub fn validate(&self, transaction: &Transaction, decoding: PayloadDecoding) -> (result: Result<
        (Hash256, SignedExecutionPayload),
        LifecycleError,
    >)
        ensures
            match result {
                Ok((id, payload)) => {
                    &&& validation_refusal(self@, transaction@, decoding) is None
                    &&& encodable(transaction@)
                    &&& id == transaction_id(transaction@)
                    &&& carried_payload(decoding) == Ok::<PayloadModel, LifecycleError>(payload@)
                },
                Err(error) => match validation_refusal(self@, transaction@, decoding) {
                    Some(refused) => error == refused,
                    None => error is Encoding && !encodable(transaction@),
                },
            },
    {
        let scheme = match self.schemes.get(transaction.scheme_id) {
            Ok(scheme) => scheme,
            Err(error) => {
                return Err(LifecycleError::Crypto(error));
            },
        };
        match scheme.address(&transaction.public_key) {
            Ok(address) => {
                if address != transaction.sender {
                    return Err(LifecycleError::SenderMismatch);
                }
            },
            Err(error) => {
                return Err(LifecycleError::Crypto(error));
            },
        }
        match scheme.verify(
            &transaction.public_key,
            &transaction.signing_message(),
            &transaction.signature,
        ) {
            Ok(()) => {},
            Err(error) => {
                return Err(LifecycleError::Crypto(error));
            },
        }
        let payload = match decode_execution_payload(decoding) {
            Ok(payload) => payload,
            Err(error) => {
                return Err(error);
            },
        };
        if payload.executable.operation.sender() != transaction.sender {
            return Err(LifecycleError::SenderMismatch);
        }
        if payload.executable.compute_limit == 0 || payload.max_fee_per_compute
            < payload.priority_fee_per_compute {
            return Err(LifecycleError::InvalidFeeBid);
        }
        match signed_transaction_id(transaction) {
            Ok(id) => Ok((id, payload)),
            Err(error) => Err(error),
        }
    }
}

/// The nonce that a sender's next transaction must have.
pub open spec fn next_nonce(nonces: Map<Address, u64>, sender: Address) -> u64 {
    if nonces.contains_key(sender) {
        nonces[sender]
    } else {
        0
    }
}

/// Why a transaction is not admitted; `None` where only its encoding can fail it.
pub open spec fn admission_refusal(
    schemes: SchemesModel,
    nonces: Map<Address, u64>,
    transaction: TransactionModel,
    decoding: PayloadDecoding,
) -> Option<LifecycleError> {
    let expected = next_nonce(nonces, transaction.sender);
    match validation_refusal(schemes, transaction, decoding) {
        Some(error) => Some(error),
        None => if !encodable(transaction) {
            None
        } else if transaction.nonce != expected {
            Some(LifecycleError::NonceMismatch { expected, received: transaction.nonce })
        } else if expected == u64::MAX {
            Some(LifecycleError::NonceOverflow)
        } else {
            None
        },
    }
}

/// The nonces after a transaction was admitted.
pub open spec fn with_nonce(nonces: Map<Address, u64>, transaction: TransactionModel) -> Map<
    Address,
    u64,
> {
    nonces.insert(transaction.sender, (transaction.nonce + 1) as u64)
}

/// Validates a transaction and takes its nonce.
///
/// # Errors
///
/// Rejects what validation rejects, then nonces out of turn.
pub fn admit_transaction(
    transaction: &Transaction,
    decoding: PayloadDecoding,
    validator: &TransactionValidator,
    nonces: &mut OrderedMap<Address, u64>,
) -> (result: Result<(Hash256, SignedExecutionPayload), LifecycleError>)
    ensures
        match result {
            Ok((id, payload)) => {
                &&& admission_refusal(validator@, old(nonces)@, transaction@, decoding) is None
                &&& encodable(transaction@)
                &&& id == transaction_id(transaction@)
                &&& carried_payload(decoding) == Ok::<PayloadModel, LifecycleError>(payload@)
                &&& final(nonces)@ == with_nonce(old(nonces)@, transaction@)
            },
            Err(error) => final(nonces)@ == old(nonces)@ && match admission_refusal(
                validator@,
                old(nonces)@,
                transaction@,
                decoding,
            ) {
                Some(refused) => error == refused,
                None => error is Encoding && !encodable(transaction@),
            },
        },
{
    let (id, payload) = match validator.validate(transaction, decoding) {
        Ok(validated) => validated,
        Err(error) => {
            return Err(error);
        },
    };
    let expected: u64 = match nonces.get(&transaction.sender) {
        Some(nonce) => *nonce,
        None => 0,
    };
    if transaction.nonce != expected {
        return Err(
            LifecycleError::NonceMismatch { expected, received: transaction.nonce },
        );
    }
    match expected.checked_add(1) {
        None => Err(LifecycleError::NonceOverflow),
        Some(next) => {
            let _ = nonces.insert(transaction.sender, next);
            Ok((id, payload))
        },
    }
}

/// One admitted transaction's executable payload plus the fee data needed to
/// settle it deterministically at commit time: the leader's certified local base
/// fee and the sender's own signed bid.
#[derive(Debug, PartialEq, Eq)]
pub struct PendingTransactionExecution {
    pub executable: ExecutableTransaction,
    pub base_fee_per_compute: u128,
    pub priority_fee_per_compute: u128,
}

/// A finalized order already handed to the deferred executor but not yet
/// committed. Persisted durably so a crash between submission and commit does not
/// strand the node waiting for the network to resend a block it already
/// validated and started executing.
#[derive(Debug)]
pub struct PendingBlock {
    pub order: FinalizedOrder,
    pub parent_id: Hash256,
    pub payload_id: Hash256,
    pub next_nonces: OrderedMap<Address, u64>,
    pub transactions: Vec<PendingTransactionExecution>,
}

/// The value of a pending block.
pub struct PendingModel {
    pub order: OrderModel,
    pub parent_id: Hash256,
    pub payload_id: Hash256,
    pub next_nonces: Map<Address, u64>,
    pub transactions: Seq<PendingTransactionExecution>,
}

impl View for PendingBlock {
    type V = PendingModel;

    open spec fn view(&self) -> PendingModel {
        PendingModel {
            order: self.order@,
            parent_id: self.parent_id,
            payload_id: self.payload_id,
            next_nonces: self.next_nonces@,
            transactions: self.transactions@,
        }
    }
}

/// The transactions of a payload that were admitted so far.
pub struct AdmittedModel {
    pub nonces: Map<Address, u64>,
    pub executions: Seq<PendingTransactionExecution>,
}

/// Why transactions of a payload are refused.
#[derive(Debug)]
pub enum Refusal {
    Known(LifecycleError),
    Encoding,
}

/// Whether an error reports a refusal.
pub open spec fn reports(error: LifecycleError, refusal: Refusal) -> bool {
    match refusal {
        Refusal::Known(known) => error == known,
        Refusal::Encoding => error is Encoding,
    }
}

/// What admitting the next transaction of a payload at a base fee gives.
pub open spec fn admission_step(
    schemes: SchemesModel,
    admitted: AdmittedModel,
    transaction: TransactionModel,
    decoding: PayloadDecoding,
    base_fee: u128,
) -> Result<AdmittedModel, Refusal> {
    match admission_refusal(schemes, admitted.nonces, transaction, decoding) {
        Some(error) => Err(Refusal::Known(error)),
        None => if !encodable(transaction) {
            Err(Refusal::Encoding)
        } else {
            let payload = carried_payload(decoding).unwrap();
            let required = base_fee + payload.priority_fee_per_compute;
            if required > u128::MAX || payload.max_fee_per_compute < required {
                Err(Refusal::Known(LifecycleError::FeeCapExceeded))
            } else {
                Ok(
                    AdmittedModel {
                        nonces: with_nonce(admitted.nonces, transaction),
                        executions: admitted.executions.push(
                            PendingTransactionExecution {
                                executable: payload.executable,
                                base_fee_per_compute: base_fee,
                                priority_fee_per_compute: payload.priority_fee_per_compute,
                            },
                        ),
                    },
                )
            }
        },
    }
}

/// What admitting the first `count` transactions of a payload gives.
pub open spec fn admissions(
    schemes: SchemesModel,
    nonces: Map<Address, u64>,
    payload: BlockModel,
    decodings: Seq<PayloadDecoding>,
    count: nat,
) -> Result<AdmittedModel, Refusal>
    decreases count,
{
    if count == 0 {
        Ok(AdmittedModel { nonces, executions: Seq::empty() })
    } else {
        let i = count - 1;
        match admissions(schemes, nonces, payload, decodings, i as nat) {
            Err(refusal) => Err(refusal),
            Ok(admitted) => admission_step(
                schemes,
                admitted,
                payload.transactions[i],
                decodings[i],
                payload.base_fees[i],
            ),
        }
    }
}

proof fn lemma_admissions_fail(
    schemes: SchemesModel,
    nonces: Map<Address, u64>,
    payload: BlockModel,
    decodings: Seq<PayloadDecoding>,
    count: nat,
    total: nat,
)
    requires
        count <= total,
        admissions(schemes, nonces, payload, decodings, count) is Err,
    ensures
        admissions(schemes, nonces, payload, decodings, total) == admissions(
            schemes,
            nonces,
            payload,
            decodings,
            count,
        ),
    decreases total,
{
    if count < total {
        lemma_admissions_fail(schemes, nonces, payload, decodings, count, (total - 1) as nat);
    }
}

/// The application's place in the chain.
#[verifier::ext_equal]
pub struct LifecycleModel {
    pub committed_height: u64,
    pub committed_block: Hash256,
    pub submitted_height: u64,
    pub submitted_block: Hash256,
    pub nonces: Map<Address, u64>,
    pub pending: Map<u64, PendingModel>,
    pub ledger: LedgerModel,
}

/// What the application works with throughout.
pub struct ApplicationModel<S> {
    pub genesis_hash: Hash256,
    pub table: Seq<ValidatorModel>,
    pub scheme: S,
    pub schemes: SchemesModel,
}

/// The height that follows another; the last one has no follower.
pub open spec fn next_height(height: u64) -> u64 {
    if height < u64::MAX {
        (height + 1) as u64
    } else {
        height
    }
}

/// Why a finalized order is refused before its transactions are looked at.
pub open spec fn order_refusal<S: AggregateSignatureScheme>(
    application: ApplicationModel<S>,
    state: LifecycleModel,
    order: OrderModel,
    payload: BlockModel,
) -> Option<LifecycleError> {
    if !(order.certificate.kind == CertificateKind::Fast || order.certificate.kind
        == CertificateKind::Commit) {
        Some(LifecycleError::NonFinalCertificate)
    } else {
        match certificate_check(order.certificate, application.table, application.scheme) {
            Err(error) => Some(LifecycleError::Consensus(error)),
            Ok(()) => if order.height != order.certificate.height || order.block_id
                != order.certificate.block_id || order.height != payload.height || order.height
                != next_height(state.submitted_height) || payload.parent_id
                != state.submitted_block {
                Some(LifecycleError::OrderMismatch)
            } else if payload.base_fees.len() != payload.transactions.len() {
                Some(LifecycleError::FeeCountMismatch)
            } else {
                None
            },
        }
    }
}

/// Whether an order is the one that a payload's contents make.
pub open spec fn order_matches(order: OrderModel, payload: BlockModel) -> bool {
    let ids = ids_of(payload.transactions);
    let commitment = fee_commitment_of(payload.base_fees);
    &&& order.transaction_ids == ids
    &&& order.fee_commitment == commitment
    &&& order.block_id == block_id_of(payload.height, payload.parent_id, ids, commitment)
}

/// What submitting a finalized order with its payload gives.
pub open spec fn submission_result<S: AggregateSignatureScheme>(
    application: ApplicationModel<S>,
    state: LifecycleModel,
    order: OrderModel,
    payload: BlockModel,
    decodings: Seq<PayloadDecoding>,
) -> Result<PendingModel, Refusal> {
    match order_refusal(application, state, order, payload) {
        Some(error) => Err(Refusal::Known(error)),
        None => match admissions(
            application.schemes,
            state.nonces,
            payload,
            decodings,
            payload.transactions.len(),
        ) {
            Err(refusal) => Err(refusal),
            Ok(admitted) => if !order_matches(order, payload) {
                Err(Refusal::Known(LifecycleError::OrderMismatch))
            } else if !encodable_block(payload) {
                Err(Refusal::Encoding)
            } else {
                Ok(
                    PendingModel {
                        order,
                        parent_id: payload.parent_id,
                        payload_id: hash_of(block_encoding(payload)),
                        next_nonces: admitted.nonces,
                        transactions: admitted.executions,
                    },
                )
            },
        },
    }
}

/// The state after a block was handed to execution.
pub open spec fn with_submission(state: LifecycleModel, pending: PendingModel) -> LifecycleModel {
    LifecycleModel {
        submitted_height: pending.order.height,
        submitted_block: pending.order.block_id,
        nonces: pending.next_nonces,
        pending: state.pending.insert(pending.order.height, pending),
        ..state
    }
}

/// One settlement that a committed transaction calls for.
#[derive(Clone, Copy, Debug)]
pub struct Charge {
    pub settlement: Settlement,
    pub compute_used: u64,
}

/// The settlement of a transaction that was executed.
pub open spec fn settlement_for(id: Hash256, execution: PendingTransactionExecution) -> Settlement {
    Settlement {
        transaction_id: id,
        payer: sender_of(execution.executable.operation),
        compute_limit: execution.executable.compute_limit,
        local_base_fee_per_compute: execution.base_fee_per_compute,
        priority_fee_per_compute: execution.priority_fee_per_compute,
    }
}

/// The settlements that receipts call for, in their order. A receipt of a
/// transaction that is not in the block calls for none.
pub open spec fn charges_of(
    pending: PendingModel,
    receipts: Seq<ExecutionReceipt>,
) -> Seq<Charge>
    decreases receipts.len(),
{
    if receipts.len() == 0 {
        Seq::empty()
    } else {
        let earlier = charges_of(pending, receipts.drop_last());
        let receipt = receipts.last();
        let i = receipt.transaction_index as int;
        if i < pending.transactions.len() && i < pending.order.transaction_ids.len() {
            earlier.push(
                Charge {
                    settlement: settlement_for(
                        pending.order.transaction_ids[i],
                        pending.transactions[i],
                    ),
                    compute_used: receipt.compute_used,
                },
            )
        } else {
            earlier
        }
    }
}

/// The ledger after a charge: the fee is reserved, bound to the leader and
/// settled; where any of that fails, the balances stay and nothing stays reserved.
pub open spec fn charged(ledger: LedgerModel, charge: Charge, leader: Address) -> LedgerModel {
    let settlement = charge.settlement;
    let id = settlement.transaction_id;
    let price = unit_price(settlement);
    if price > u128::MAX || reserve_result(
        ledger,
        id,
        settlement.payer,
        settlement.compute_limit,
        price as u128,
    ) is Err {
        ledger
    } else {
        let held = reserved(
            ledger,
            id,
            settlement.payer,
            settlement.compute_limit,
            price as u128,
        );
        if bind_result(held, settlement, leader) is Err {
            released(held, id)
        } else {
            let tied = bound(held, settlement, leader);
            if settle_result(tied, settlement, charge.compute_used, leader) is Err {
                released(tied, id)
            } else {
                settled(tied, settlement, charge.compute_used, leader)
            }
        }
    }
}

/// The ledger after charges, one after another.
pub open spec fn charged_all(ledger: LedgerModel, charges: Seq<Charge>, leader: Address) -> LedgerModel
    decreases charges.len(),
{
    if charges.len() == 0 {
        ledger
    } else {
        charged(charged_all(ledger, charges.drop_last(), leader), charges.last(), leader)
    }
}

/// Charges one executed transaction; a failure changes no balance.
pub fn charge(ledger: &mut FeeLedger, charge: &Charge, leader: Address)
    requires
        old(ledger).wf(),
    ensures
        final(ledger).wf(),
        final(ledger)@ == charged(old(ledger)@, *charge, leader),
{
    let settlement = charge.settlement;
    let price: u128 = match settlement.local_base_fee_per_compute.checked_add(
        settlement.priority_fee_per_compute,
    ) {
        Some(price) => price,
        None => {
            return ;
        },
    };
    if ledger.reserve_maximum(
        settlement.transaction_id,
        settlement.payer,
        settlement.compute_limit,
        price,
    ).is_err() {
        return ;
    }
    if ledger.bind_settlement(settlement, leader).is_err() {
        let _ = ledger.release(settlement.transaction_id);
        return ;
    }
    if ledger.settle(&settlement, charge.compute_used, leader).is_err() {
        let _ = ledger.release(settlement.transaction_id);
    }
}

/// Charges executed transactions, one after another.
fn charge_all(ledger: &mut FeeLedger, charges: &[Charge], leader: Address)
    requires
        old(ledger).wf(),
    ensures
        final(ledger).wf(),
        final(ledger)@ == charged_all(old(ledger)@, charges@, leader),
{
    let ghost entry = ledger@;
    let mut index: usize = 0;
    assert(charges@.take(0) =~= Seq::<Charge>::empty());
    while index < charges.len()
        invariant
            index <= charges@.len(),
            ledger.wf(),
            ledger@ == charged_all(entry, charges@.take(index as int), leader),
        decreases charges@.len() - index,
    {
        proof {
            let next = charges@.take(index + 1);
            assert(next.drop_last() =~= charges@.take(index as int));
            assert(next.last() == charges@[index as int]);
        }
        charge(ledger, &charges[index], leader);
        index += 1;
    }
    assert(charges@.take(index as int) =~= charges@);
}

/// The settlements that receipts call for, in their order.
pub fn charges_for(pending: &PendingBlock, receipts: &[ExecutionReceipt]) -> (charges: Vec<Charge>)
    ensures
        charges@ == charges_of(pending@, receipts@),
{
    let mut charges: Vec<Charge> = Vec::new();
    let mut index: usize = 0;
    assert(charges@ =~= charges_of(pending@, receipts@.take(0)));
    while index < receipts.len()
        invariant
            index <= receipts@.len(),
            charges@ == charges_of(pending@, receipts@.take(index as int)),
        decreases receipts@.len() - index,
    {
        proof {
            let next = receipts@.take(index + 1);
            assert(next.drop_last() =~= receipts@.take(index as int));
            assert(next.last() == receipts@[index as int]);
        }
        let receipt = &receipts[index];
        let i: usize = receipt.transaction_index;
        if i < pending.transactions.len() && i < pending.order.transaction_ids.len() {
            let execution = &pending.transactions[i];
            charges.push(
                Charge {
                    settlement: Settlement {
                        transaction_id: pending.order.transaction_ids[i],
                        payer: execution.executable.operation.sender(),
                        compute_limit: execution.executable.compute_limit,
                        local_base_fee_per_compute: execution.base_fee_per_compute,
                        priority_fee_per_compute: execution.priority_fee_per_compute,
                    },
                    compute_used: receipt.compute_used,
                },
            );
        }
        index += 1;
    }
    assert(receipts@.take(index as int) =~= receipts@);
    charges
}

/// Atomically persisted result joining finality, payload, execution, and state.
#[derive(Debug, PartialEq, Eq)]
pub struct DurableBlockRecord {
    pub height: u64,
    pub consensus_block_id: Hash256,
    pub parent_id: Hash256,
    pub payload_id: Hash256,
    pub transaction_ids: Vec<Hash256>,
    pub state_root: Hash256,
    pub certificate: QuorumCertificate,
}

/// The value of a block record.
pub struct RecordModel {
    pub height: u64,
    pub consensus_block_id: Hash256,
    pub parent_id: Hash256,
    pub payload_id: Hash256,
    pub transaction_ids: Seq<Hash256>,
    pub state_root: Hash256,
    pub certificate: CertificateModel,
}

impl View for DurableBlockRecord {
    type V = RecordModel;

    open spec fn view(&self) -> RecordModel {
        RecordModel {
            height: self.height,
            consensus_block_id: self.consensus_block_id,
            parent_id: self.parent_id,
            payload_id: self.payload_id,
            transaction_ids: self.transaction_ids@,
            state_root: self.state_root,
            certificate: self.certificate@,
        }
    }
}

/// What is restored at startup, beside the object state that it goes with.
#[derive(Debug)]
pub struct DurableCheckpoint {
    pub format_version: u16,
    pub genesis_hash: Hash256,
    pub finalized_height: u64,
    pub finalized_block: Hash256,
    pub next_nonces: OrderedMap<Address, u64>,
    pub fee_balances: OrderedMap<Address, u128>,
}

/// The value of a checkpoint.
pub struct CheckpointModel {
    pub format_version: u16,
    pub genesis_hash: Hash256,
    pub finalized_height: u64,
    pub finalized_block: Hash256,
    pub next_nonces: Map<Address, u64>,
    pub fee_balances: Map<Address, u128>,
}

impl View for DurableCheckpoint {
    type V = CheckpointModel;

    open spec fn view(&self) -> CheckpointModel {
        CheckpointModel {
            format_version: self.format_version,
            genesis_hash: self.genesis_hash,
            finalized_height: self.finalized_height,
            finalized_block: self.finalized_block,
            next_nonces: self.next_nonces@,
            fee_balances: self.fee_balances@,
        }
    }
}

impl DurableCheckpoint {
    /// The checkpoint of a chain that has committed nothing.
    pub fn at_genesis(genesis_hash: Hash256, fee_balances: OrderedMap<Address, u128>) -> (checkpoint:
        Self)
        ensures
            checkpoint@ == (CheckpointModel {
                format_version: CHECKPOINT_FORMAT_VERSION,
                genesis_hash,
                finalized_height: 0,
                finalized_block: genesis_hash,
                next_nonces: Map::empty(),
                fee_balances: fee_balances@,
            }),
    {
        DurableCheckpoint {
            format_version: CHECKPOINT_FORMAT_VERSION,
            genesis_hash,
            finalized_height: 0,
            finalized_block: genesis_hash,
            next_nonces: OrderedMap::new(),
            fee_balances,
        }
    }
}

/// A block that execution has completed.
#[derive(Debug)]
pub struct CompletedBlock {
    pub height: u64,
    pub consensus_block_id: Hash256,
    pub result: Result<BlockExecutionResult, String>,
    /// The root of the state snapshot that came with the result, if one did.
    pub snapshot_root: Option<Hash256>,
}

/// What is to be written atomically for a commit: the record of the block, the
/// next checkpoint and the removal of the pending block.
#[derive(Debug)]
pub struct CommitPlan {
    pub record: DurableBlockRecord,
    pub checkpoint: DurableCheckpoint,
}

/// Whether an error is why a completed block cannot be committed.
pub open spec fn commit_refused<S: AggregateSignatureScheme>(
    application: ApplicationModel<S>,
    state: LifecycleModel,
    completed: CompletedBlock,
    error: LifecycleError,
) -> bool {
    if completed.height != next_height(state.committed_height) || !state.pending.contains_key(
        completed.height,
    ) || completed.consensus_block_id != state.pending[completed.height].order.block_id {
        error == LifecycleError::CommitOrderMismatch
    } else {
        match completed.result {
            Err(reason) => error matches LifecycleError::ExecutionFailed(text) && text@ == reason@,
            Ok(block) => match completed.snapshot_root {
                None => error == LifecycleError::MissingStateSnapshot,
                Some(root) => if block.state_root != root {
                    error == LifecycleError::CommitRootMismatch
                } else {
                    leader_account(application, state.pending[completed.height].order) == Err::<
                        Address,
                        CryptoError,
                    >(error->Crypto_0) && error is Crypto
                },
            },
        }
    }
}

/// The account that the fees of a height go to: that of the validator that led it.
pub open spec fn leader_account<S: AggregateSignatureScheme>(
    application: ApplicationModel<S>,
    order: OrderModel,
) -> Result<Address, CryptoError> {
    account_address(
        application.scheme.id(),
        application.scheme.key_length(),
        leader_of(application.table, order.height, order.certificate.view).public_key,
    )
}

/// Whether a completed block is the next one to commit, with a leader account.
pub open spec fn commits<S: AggregateSignatureScheme>(
    application: ApplicationModel<S>,
    state: LifecycleModel,
    completed: CompletedBlock,
) -> bool {
    &&& completed.height == next_height(state.committed_height)
    &&& state.pending.contains_key(completed.height)
    &&& completed.consensus_block_id == state.pending[completed.height].order.block_id
    &&& completed.result matches Ok(block) && completed.snapshot_root == Some(block.state_root)
    &&& leader_account(application, state.pending[completed.height].order) is Ok
}

/// The ledger after a commit: every receipt is charged.
pub open spec fn ledger_after<S: AggregateSignatureScheme>(
    application: ApplicationModel<S>,
    state: LifecycleModel,
    completed: CompletedBlock,
) -> LedgerModel {
    let pending = state.pending[completed.height];
    charged_all(
        state.ledger,
        charges_of(pending, completed.result.unwrap().receipts@),
        leader_account(application, pending.order).unwrap(),
    )
}

/// The record of a commit.
pub open spec fn record_of(pending: PendingModel, completed: CompletedBlock) -> RecordModel {
    RecordModel {
        height: completed.height,
        consensus_block_id: completed.consensus_block_id,
        parent_id: pending.parent_id,
        payload_id: pending.payload_id,
        transaction_ids: pending.order.transaction_ids,
        state_root: completed.result.unwrap().state_root,
        certificate: pending.order.certificate,
    }
}

/// The checkpoint of a commit.
pub open spec fn checkpoint_of<S: AggregateSignatureScheme>(
    application: ApplicationModel<S>,
    state: LifecycleModel,
    completed: CompletedBlock,
) -> CheckpointModel {
    CheckpointModel {
        format_version: CHECKPOINT_FORMAT_VERSION,
        genesis_hash: application.genesis_hash,
        finalized_height: completed.height,
        finalized_block: completed.consensus_block_id,
        next_nonces: state.pending[completed.height].next_nonces,
        fee_balances: ledger_after(application, state, completed).balances,
    }
}

/// A ledger with balances and nothing reserved.
pub open spec fn ledger_of(balances: Map<Address, u128>) -> LedgerModel {
    LedgerModel { balances, reservations: Map::empty() }
}

/// The state after the commit that a checkpoint records.
pub open spec fn with_commit(state: LifecycleModel, checkpoint: CheckpointModel) -> LifecycleModel {
    LifecycleModel {
        committed_height: checkpoint.finalized_height,
        committed_block: checkpoint.finalized_block,
        pending: state.pending.remove(checkpoint.finalized_height),
        ledger: ledger_of(checkpoint.fee_balances),
        ..state
    }
}

/// The state that a lifecycle opens with.
pub open spec fn opened(checkpoint: CheckpointModel) -> LifecycleModel {
    LifecycleModel {
        committed_height: checkpoint.finalized_height,
        committed_block: checkpoint.finalized_block,
        submitted_height: checkpoint.finalized_height,
        submitted_block: checkpoint.finalized_block,
        nonces: checkpoint.next_nonces,
        pending: Map::empty(),
        ledger: ledger_of(checkpoint.fee_balances),
    }
}

/// The values of pending blocks.
pub open spec fn pending_models(pending: Map<u64, PendingBlock>) -> Map<u64, PendingModel> {
    pending.map_values(|block: PendingBlock| block@)
}

/// Restart-safe finalized-block execution and application-state commit pipeline.
/// Storage and execution are outside: they perform what is decided here.
pub struct BlockLifecycle<S: AggregateSignatureScheme> {
    genesis_hash: Hash256,
    validators: ValidatorSet,
    scheme: Arc<S>,
    admission: TransactionValidator,
    committed_height: u64,
    committed_block: Hash256,
    submitted_height: u64,
    submitted_block: Hash256,
    admission_nonces: OrderedMap<Address, u64>,
    pending: OrderedMap<u64, PendingBlock>,
    fee_ledger: FeeLedger,
}

impl<S: AggregateSignatureScheme> View for BlockLifecycle<S> {
    type V = LifecycleModel;

    closed spec fn view(&self) -> LifecycleModel {
        LifecycleModel {
            committed_height: self.committed_height,
            committed_block: self.committed_block,
            submitted_height: self.submitted_height,
            submitted_block: self.submitted_block,
            nonces: self.admission_nonces@,
            pending: pending_models(self.pending@),
            ledger: self.fee_ledger@,
        }
    }
}

impl<S: AggregateSignatureScheme> BlockLifecycle<S> {
    /// What the lifecycle works with throughout.
    pub closed spec fn application(&self) -> ApplicationModel<S> {
        ApplicationModel {
            genesis_hash: self.genesis_hash,
            table: self.validators@,
            scheme: *self.scheme,
            schemes: self.admission@,
        }
    }

    /// The fee ledger is sound, with nothing reserved.
    pub closed spec fn wf(&self) -> bool {
        self.fee_ledger.wf() && self.fee_ledger@.reservations == Map::<
            Hash256,
            FeeReservation,
        >::empty()
    }

    /// Restores the lifecycle from a durable checkpoint, before blocks that were
    /// pending are replayed.
    ///
    /// # Errors
    ///
    /// Rejects a checkpoint of another format or another genesis.
    pub fn open(
        genesis_hash: Hash256,
        validators: ValidatorSet,
        scheme: Arc<S>,
        admission: TransactionValidator,
        checkpoint: DurableCheckpoint,
    ) -> (result: Result<Self, LifecycleError>)
        ensures
            match result {
                Ok(lifecycle) => {
                    &&& checkpoint.format_version == CHECKPOINT_FORMAT_VERSION
                    &&& checkpoint.genesis_hash == genesis_hash
                    &&& lifecycle.wf()
                    &&& lifecycle.application() == (ApplicationModel {
                        genesis_hash,
                        table: validators@,
                        scheme: *scheme,
                        schemes: admission@,
                    })
                    &&& lifecycle@ == opened(checkpoint@)
                },
                Err(error) => error == LifecycleError::CheckpointGenesisMismatch && (
                checkpoint.format_version != CHECKPOINT_FORMAT_VERSION || checkpoint.genesis_hash
                    != genesis_hash),
            },
    {
        if checkpoint.format_version != CHECKPOINT_FORMAT_VERSION || checkpoint.genesis_hash
            != genesis_hash {
            return Err(LifecycleError::CheckpointGenesisMismatch);
        }
        let lifecycle = BlockLifecycle {
            genesis_hash,
            validators,
            scheme,
            admission,
            committed_height: checkpoint.finalized_height,
            committed_block: checkpoint.finalized_block,
            submitted_height: checkpoint.finalized_height,
            submitted_block: checkpoint.finalized_block,
            admission_nonces: checkpoint.next_nonces,
            pending: OrderedMap::new(),
            fee_ledger: FeeLedger::from_balances(checkpoint.fee_balances),
        };
        assert(pending_models(Map::empty()) =~= Map::<u64, PendingModel>::empty());
        Ok(lifecycle)
    }

    /// Checks that a pending block from before a restart extends what has been
    /// submitted by exactly one height. Execution only ever runs blocks in strict
    /// submission order, so a gap or repeat means the pending log is corrupt
    /// rather than merely stale, and is treated as unrecoverable.
    ///
    /// # Errors
    ///
    /// Rejects a block of any other height.
    pub fn check_replay(&self, pending: &PendingBlock) -> (result: Result<(), LifecycleError>)
        ensures
            result == (if pending@.order.height != next_height(self@.submitted_height) {
                Err::<(), LifecycleError>(
                    LifecycleError::PendingReplayGap {
                        expected: next_height(self@.submitted_height),
                        found: pending@.order.height,
                    },
                )
            } else {
                Ok(())
            }),
    {
        let expected: u64 = self.submitted_height.saturating_add(1);
        if pending.order.height != expected {
            return Err(
                LifecycleError::PendingReplayGap { expected, found: pending.order.height },
            );
        }
        Ok(())
    }

    /// Admits the transactions of a payload, each at its base fee.
    fn admit_all(
        &self,
        payload: &PropagatedBlock,
        decodings: Vec<PayloadDecoding>,
        nonces: &mut OrderedMap<Address, u64>,
    ) -> (result: Result<(Vec<Hash256>, Vec<PendingTransactionExecution>), LifecycleError>)
        requires
            decodings@.len() == payload@.transactions.len(),
            payload@.base_fees.len() == payload@.transactions.len(),
        ensures
            match admissions(
                self.application().schemes,
                old(nonces)@,
                payload@,
                decodings@,
                payload@.transactions.len(),
            ) {
                Ok(admitted) => {
                    &&& result matches Ok((ids, executions))
                    &&& ids@ == ids_of(payload@.transactions)
                    &&& executions@ == admitted.executions
                    &&& final(nonces)@ == admitted.nonces
                },
                Err(refusal) => result matches Err(error) && reports(error, refusal),
            },
    {
        let ghost schemes = self.application().schemes;
        let ghost start = nonces@;
        let ghost all = decodings@;
        let ghost total = payload@.transactions.len();
        let mut rest = decodings;
        let mut ids: Vec<Hash256> = Vec::new();
        let mut executions: Vec<PendingTransactionExecution> = Vec::new();
        let mut index: usize = 0;
        proof {
            assert(rest@ =~= all.skip(0));
            assert(ids@ =~= ids_of(payload@.transactions).take(0));
            assert(executions@ =~= Seq::<PendingTransactionExecution>::empty());
        }
        while index < payload.transactions.len()
            invariant
                index <= payload.transactions@.len(),
                total == payload.transactions@.len(),
                total == payload@.transactions.len(),
                all == decodings@,
                start == old(nonces)@,
                all.len() == total,
                payload.base_fees@.len() == total,
                schemes == self.application().schemes,
                rest@ == all.skip(index as int),
                ids@ == ids_of(payload@.transactions).take(index as int),
                admissions(schemes, start, payload@, all, index as nat) == Ok::<
                    AdmittedModel,
                    Refusal,
                >(AdmittedModel { nonces: nonces@, executions: executions@ }),
            decreases payload.transactions@.len() - index,
        {
            let transaction = &payload.transactions[index];
            assert(transaction@ == payload@.transactions[index as int]);
            assert(rest@[0] == all[index as int]);
            let decoding = rest.remove(0);
            assert(rest@ =~= all.skip(index + 1));
            let base_fee_per_compute: u128 = payload.base_fees[index];
            let ghost before = AdmittedModel { nonces: nonces@, executions: executions@ };
            let ghost step = admission_step(
                schemes,
                before,
                transaction@,
                decoding,
                base_fee_per_compute,
            );
            proof {
                assert(admissions(schemes, start, payload@, all, (index + 1) as nat) == step);
                if step is Err {
                    lemma_admissions_fail(
                        schemes,
                        start,
                        payload@,
                        all,
                        (index + 1) as nat,
                        total,
                    );
                }
            }
            let (id, signed) = match admit_transaction(
                transaction,
                decoding,
                &self.admission,
                nonces,
            ) {
                Ok(admitted) => admitted,
                Err(error) => {
                    return Err(error);
                },
            };
            match base_fee_per_compute.checked_add(signed.priority_fee_per_compute) {
                None => {
                    return Err(LifecycleError::FeeCapExceeded);
                },
                Some(required) => {
                    if signed.max_fee_per_compute < required {
                        return Err(LifecycleError::FeeCapExceeded);
                    }
                },
            }
            ids.push(id);
            executions.push(
                PendingTransactionExecution {
                    executable: signed.executable,
                    base_fee_per_compute,
                    priority_fee_per_compute: signed.priority_fee_per_compute,
                },
            );
            assert(ids@ =~= ids_of(payload@.transactions).take(index + 1));
            index += 1;
        }
        assert(ids@ =~= ids_of(payload@.transactions));
        Ok((ids, executions))
    }

    /// Verifies a finalized order with its reconstructed payload: its finality,
    /// its place in the chain, and the signed admission of every transaction at
    /// the certified base fees. The block that comes back is to be stored, handed
    /// to execution and then recorded; where execution takes no block, it is
    /// dropped again.
    ///
    /// # Errors
    ///
    /// Rejects invalid certificates, orders, payloads, signatures, nonces and fees.
    pub fn submit_payload(
        &self,
        order: FinalizedOrder,
        payload: &PropagatedBlock,
        decodings: Vec<PayloadDecoding>,
    ) -> (result: Result<PendingBlock, LifecycleError>)
        requires
            decodings@.len() == payload@.transactions.len(),
        ensures
            match submission_result(self.application(), self@, order@, payload@, decodings@) {
                Ok(pending) => result matches Ok(block) && block@ == pending,
                Err(refusal) => result matches Err(error) && reports(error, refusal),
            },
    {
        if !(order.certificate.kind == CertificateKind::Fast || order.certificate.kind
            == CertificateKind::Commit) {
            return Err(LifecycleError::NonFinalCertificate);
        }
        match verify_certificate(&order.certificate, &self.validators, &*self.scheme) {
            Ok(()) => {},
            Err(error) => {
                return Err(LifecycleError::Consensus(error));
            },
        }
        if order.height != order.certificate.height || order.block_id
            != order.certificate.block_id || order.height != payload.height || order.height
            != self.submitted_height.saturating_add(1) || payload.parent_id
            != self.submitted_block {
            return Err(LifecycleError::OrderMismatch);
        }
        if payload.base_fees.len() != payload.transactions.len() {
            return Err(LifecycleError::FeeCountMismatch);
        }
        let mut next_nonces = self.admission_nonces.copy();
        let (transaction_ids, transactions) = match self.admit_all(
            payload,
            decodings,
            &mut next_nonces,
        ) {
            Ok(admitted) => admitted,
            Err(error) => {
                return Err(error);
            },
        };
        let commitment = payload.fee_commitment();
        let expected_block = proposal_id(
            payload.height,
            payload.parent_id,
            &transaction_ids,
            commitment,
        );
        if !same_ids(&transaction_ids, &order.transaction_ids) || commitment
            != order.fee_commitment || expected_block != order.block_id {
            return Err(LifecycleError::OrderMismatch);
        }
        match payload.payload_id() {
            Err(error) => Err(error),
            Ok(payload_id) => Ok(
                PendingBlock {
                    order,
                    parent_id: payload.parent_id,
                    payload_id,
                    next_nonces,
                    transactions,
                },
            ),
        }
    }

    /// Records a block that execution has taken.
    pub fn record_submission(&mut self, pending: PendingBlock)
        ensures
            final(self)@ == with_submission(old(self)@, pending@),
            final(self).application() == old(self).application(),
            final(self).wf() == old(self).wf(),
    {
        let height: u64 = pending.order.height;
        self.submitted_height = height;
        self.submitted_block = pending.order.block_id;
        self.admission_nonces = pending.next_nonces.copy();
        let ghost value = pending@;
        let ghost before = self.pending@;
        let _ = self.pending.insert(height, pending);
        assert(pending_models(self.pending@) =~= pending_models(before).insert(height, value));
    }

    /// Settles the fees of a completed block and plans what is written for its
    /// commit. Actual compute is charged at the certified local base fee plus each
    /// sender's own signed priority bid, crediting the validator that led the
    /// height. A settlement failure, such as an unfunded payer, does not unwind an
    /// already-finalized, already-executed block. Nothing changes until the commit
    /// is confirmed, so one that could not be written can be planned again.
    ///
    /// # Errors
    ///
    /// Returns execution failures and results that are out of order or incomplete.
    pub fn poll_commit(&self, completed: &CompletedBlock) -> (result: Result<
        CommitPlan,
        LifecycleError,
    >)
        requires
            self.wf(),
        ensures
            match result {
                Ok(plan) => {
                    &&& commits(self.application(), self@, *completed)
                    &&& plan.record@ == record_of(self@.pending[completed.height], *completed)
                    &&& plan.checkpoint@ == checkpoint_of(self.application(), self@, *completed)
                },
                Err(error) => {
                    &&& !commits(self.application(), self@, *completed)
                    &&& commit_refused(self.application(), self@, *completed, error)
                },
            },
    {
        if completed.height != self.committed_height.saturating_add(1) {
            return Err(LifecycleError::CommitOrderMismatch);
        }
        let pending = match self.pending.get(&completed.height) {
            Some(pending) => pending,
            None => {
                return Err(LifecycleError::CommitOrderMismatch);
            },
        };
        assert(pending@ == self@.pending[completed.height]);
        if completed.consensus_block_id != pending.order.block_id {
            return Err(LifecycleError::CommitOrderMismatch);
        }
        let block = match &completed.result {
            Ok(block) => block,
            Err(reason) => {
                return Err(LifecycleError::ExecutionFailed(reason.clone()));
            },
        };
        let root = match completed.snapshot_root {
            Some(root) => root,
            None => {
                return Err(LifecycleError::MissingStateSnapshot);
            },
        };
        if block.state_root != root {
            return Err(LifecycleError::CommitRootMismatch);
        }
        let leader = self.validators.leader(pending.order.height, pending.order.certificate.view);
        let account = match self.scheme.address(&leader.public_key) {
            Ok(account) => account,
            Err(error) => {
                return Err(LifecycleError::Crypto(error));
            },
        };
        let record = DurableBlockRecord {
            height: completed.height,
            consensus_block_id: completed.consensus_block_id,
            parent_id: pending.parent_id,
            payload_id: pending.payload_id,
            transaction_ids: copy_ids(&pending.order.transaction_ids),
            state_root: root,
            certificate: pending.order.certificate.clone(),
        };
        let next_nonces = pending.next_nonces.copy();
        let charges = charges_for(pending, &block.receipts);
        let mut ledger = FeeLedger::from_balances(self.fee_ledger.balances().copy());
        assert(ledger@ == self@.ledger);
        charge_all(&mut ledger, &charges, account);
        let checkpoint = DurableCheckpoint {
            format_version: CHECKPOINT_FORMAT_VERSION,
            genesis_hash: self.genesis_hash,
            finalized_height: completed.height,
            finalized_block: completed.consensus_block_id,
            next_nonces,
            fee_balances: ledger.balances().copy(),
        };
        Ok(CommitPlan { record, checkpoint })
    }

    /// Takes note that a planned commit was written.
    pub fn confirm_commit(&mut self, plan: &CommitPlan)
        ensures
            final(self)@ == with_commit(old(self)@, plan.checkpoint@),
            final(self).application() == old(self).application(),
            final(self).wf(),
    {
        let height: u64 = plan.checkpoint.finalized_height;
        self.committed_height = height;
        self.committed_block = plan.checkpoint.finalized_block;
        let ghost before = self.pending@;
        let _ = self.pending.remove(&height);
        self.fee_ledger = FeeLedger::from_balances(plan.checkpoint.fee_balances.copy());
        assert(pending_models(self.pending@) =~= pending_models(before).remove(height));
    }

    /// The height that was last committed.
    pub fn committed_height(&self) -> (height: u64)
        ensures
            height == self@.committed_height,
    {
        self.committed_height
    }

    /// The block that was last committed.
    pub fn committed_block(&self) -> (block: Hash256)
        ensures
            block == self@.committed_block,
    {
        self.committed_block
    }

    /// The next nonces of the senders that have one.
    pub fn admission_nonces(&self) -> (nonces: OrderedMap<Address, u64>)
        ensures
            nonces@ == self@.nonces,
    {
        self.admission_nonces.copy()
    }

    /// Returns an account's durable fee-ledger balance.
    pub fn fee_balance(&self, address: Address) -> (balance: u128)
        ensures
            balance == amount_at(self@.ledger.balances, address),
    {
        self.fee_ledger.balance(address)
    }
}

/// Whether two lists of identifiers are the same.
pub(crate) fn same_ids(left: &[Hash256], right: &[Hash256]) -> (same: bool)
    ensures
        same == (left@ == right@),
{
    if left.len() != right.len() {
        return false;
    }
    let mut index: usize = 0;
    while index < left.len()
        invariant
            index <= left@.len(),
            left@.len() == right@.len(),
            forall|i: int| 0 <= i < index ==> left@[i] == right@[i],
        decreases left@.len() - index,
    {
        if left[index] != right[index] {
            return false;
        }
        index += 1;
    }
    assert(left@ =~= right@);
    true
}

/// Under which key the record of a height is stored.
pub open spec fn record_key(height: u64) -> Seq<u8> {
    text_bytes("application/block/v1/") + be64(height)
}

/// Under which key the pending block of a height is stored.
pub open spec fn pending_block_key(height: u64) -> Seq<u8> {
    text_bytes("application/pending/v1/") + be64(height)
}

/// Under which key the record of a height is stored.
pub fn block_key(height: u64) -> (key: Vec<u8>)
    ensures
        key@ == record_key(height),
{
    let mut key: Vec<u8> = Vec::new();
    append_text(&mut key, "application/block/v1/");
    append_be64(&mut key, height);
    assert(key@ =~= record_key(height));
    key
}

/// Under which key the pending block of a height is stored.
pub fn pending_key(height: u64) -> (key: Vec<u8>)
    ensures
        key@ == pending_block_key(height),
{
    let mut key: Vec<u8> = Vec::new();
    append_text(&mut key, "application/pending/v1/");
    append_be64(&mut key, height);
    assert(key@ =~= pending_block_key(height));
    key
}

/// Under which key the checkpoint is stored.
pub fn checkpoint_key() -> (key: Vec<u8>)
    ensures
        key@ == text_bytes("application/checkpoint/v1"),
{
    let mut key: Vec<u8> = Vec::new();
    append_text(&mut key, "application/checkpoint/v1");
    assert(key@ =~= text_bytes("application/checkpoint/v1"));
    key
}

/// A commit neither burns nor mints: what all accounts own together stays the
/// same, however its settlements end, and nothing stays reserved.
pub proof fn law_commit_conserves_balances(ledger: LedgerModel, charges: Seq<Charge>, leader: Address)
    requires
        ledger.balances.dom().finite(),
        ledger.reservations == Map::<Hash256, FeeReservation>::empty(),
    ensures
        ({
            let after = charged_all(ledger, charges, leader);
            &&& circulating(after.balances) == circulating(ledger.balances)
            &&& after.balances.dom().finite()
            &&& after.reservations == ledger.reservations
        }),
    decreases charges.len(),
{
    if charges.len() > 0 {
        law_commit_conserves_balances(ledger, charges.drop_last(), leader);
        let before = charged_all(ledger, charges.drop_last(), leader);
        law_charge_is_exact(before, charges.last(), leader);
    }
}

/// Whether a charge can be settled: it stays within its limit, the payer can
/// afford that limit and the leader has room for it.
pub open spec fn affordable(balances: Map<Address, u128>, charge: Charge, leader: Address) -> bool {
    let settlement = charge.settlement;
    let price = unit_price(settlement);
    let limit = price * settlement.compute_limit;
    &&& price <= u128::MAX
    &&& charge.compute_used <= settlement.compute_limit
    &&& limit <= amount_at(balances, settlement.payer)
    &&& settlement.payer == leader || amount_at(balances, leader) + limit <= u128::MAX
}

/// A charge that can be settled moves exactly the unit price times the compute
/// used from the payer to the leader; any other charge changes nothing.
pub proof fn law_charge_is_exact(ledger: LedgerModel, charge: Charge, leader: Address)
    requires
        ledger.balances.dom().finite(),
        ledger.reservations == Map::<Hash256, FeeReservation>::empty(),
    ensures
        ({
            let after = charged(ledger, charge, leader);
            let payer = charge.settlement.payer;
            let fee = unit_price(charge.settlement) * charge.compute_used;
            &&& circulating(after.balances) == circulating(ledger.balances)
            &&& after.balances.dom().finite()
            &&& after.reservations == ledger.reservations
            &&& !affordable(ledger.balances, charge, leader) || payer == leader ==> after.balances
                == ledger.balances
            &&& affordable(ledger.balances, charge, leader) && payer != leader ==> {
                &&& amount_at(after.balances, payer) == amount_at(ledger.balances, payer) - fee
                &&& amount_at(after.balances, leader) == amount_at(ledger.balances, leader) + fee
                &&& forall|other: Address|
                    other != payer && other != leader ==> #[trigger] amount_at(after.balances, other)
                        == amount_at(ledger.balances, other)
            }
        }),
{
    let settlement = charge.settlement;
    let id = settlement.transaction_id;
    let payer = settlement.payer;
    let price = unit_price(settlement);
    let limit = price * settlement.compute_limit;
    let fee = price * charge.compute_used;
    let after = charged(ledger, charge, leader);
    if charge.compute_used <= settlement.compute_limit {
        assert(0 <= fee <= limit) by (nonlinear_arith)
            requires
                fee == price * charge.compute_used,
                limit == price * settlement.compute_limit,
                charge.compute_used <= settlement.compute_limit,
                price >= 0,
        ;
    }
    let held = reserved(ledger, id, payer, settlement.compute_limit, price as u128);
    let tied = bound(held, settlement, leader);
    assert(reserved_for(ledger, payer) == 0);
    if price <= u128::MAX && limit <= u128::MAX {
        let reservation = held.reservations[id];
        lemma_sum_insert(ledger.reservations, creditable_at(leader), id, reservation);
        assert(pending_credit(held, leader) == 0);
    }
    assert(released(held, id).reservations =~= ledger.reservations);
    assert(released(tied, id).reservations =~= ledger.reservations);
    assert(settled(tied, settlement, charge.compute_used, leader).reservations
        =~= ledger.reservations);
    if affordable(ledger.balances, charge, leader) && payer != leader {
        let have = amount_at(ledger.balances, payer);
        let debited = (have - fee) as u128;
        let middle = ledger.balances.insert(payer, debited);
        let credited = (amount_at(ledger.balances, leader) + fee) as u128;
        lemma_put(ledger.balances, payer, debited);
        lemma_put(middle, leader, credited);
        assert(amount_at(middle, leader) == amount_at(ledger.balances, leader));
    }
}

/// The transactions of an accepted payload take their senders' nonces one after
/// another, from the next one on: no nonce is used twice.
pub proof fn law_nonces_are_consecutive(
    schemes: SchemesModel,
    nonces: Map<Address, u64>,
    payload: BlockModel,
    decodings: Seq<PayloadDecoding>,
    count: nat,
    sender: Address,
)
    requires
        admissions(schemes, nonces, payload, decodings, count) is Ok,
    ensures
        ({
            let admitted = admissions(schemes, nonces, payload, decodings, count).unwrap();
            &&& next_nonce(admitted.nonces, sender) >= next_nonce(nonces, sender)
            &&& forall|i: int|
                0 <= i < count && (#[trigger] payload.transactions[i]).sender == sender
                    ==> next_nonce(nonces, sender) <= payload.transactions[i].nonce < next_nonce(
                    admitted.nonces,
                    sender,
                )
            &&& forall|i: int, j: int|
                0 <= i < j < count && (#[trigger] payload.transactions[i]).sender == sender && (
                #[trigger] payload.transactions[j]).sender == sender
                    ==> payload.transactions[i].nonce < payload.transactions[j].nonce
        }),
    decreases count,
{
    if count > 0 {
        law_nonces_are_consecutive(
            schemes,
            nonces,
            payload,
            decodings,
            (count - 1) as nat,
            sender,
        );
    }
}

/// Charging leaves nothing reserved, so the balances tell all of the ledger.
pub proof fn law_charges_leave_nothing_reserved(
    balances: Map<Address, u128>,
    charges: Seq<Charge>,
    leader: Address,
)
    ensures
        ({
            let after = charged_all(ledger_of(balances), charges, leader);
            after == ledger_of(after.balances)
        }),
    decreases charges.len(),
{
    if charges.len() > 0 {
        law_charges_leave_nothing_reserved(balances, charges.drop_last(), leader);
        let after = charged_all(ledger_of(balances), charges, leader);
        assert(after.reservations =~= Map::<Hash256, FeeReservation>::empty());
    }
}

/// Whether a checkpoint and the pending records, which are stored, tell all of a
/// state: the checkpoint is of the committed block, and there is a record for each
/// height above it up to the submitted one.
pub open spec fn stored_as(state: LifecycleModel, checkpoint: CheckpointModel) -> bool {
    &&& state.committed_height == checkpoint.finalized_height
    &&& state.committed_block == checkpoint.finalized_block
    &&& state.ledger == ledger_of(checkpoint.fee_balances)
    &&& state.committed_height <= state.submitted_height
    &&& forall|height: u64| #[trigger]
        state.pending.contains_key(height) <==> state.committed_height < height
            <= state.submitted_height
    &&& forall|height: u64| #[trigger]
        state.pending.contains_key(height) ==> state.pending[height].order.height == height
    &&& if state.submitted_height == state.committed_height {
        state.submitted_block == state.committed_block && state.nonces == checkpoint.next_nonces
    } else {
        let last = state.pending[state.submitted_height];
        state.submitted_block == last.order.block_id && state.nonces == last.next_nonces
    }
}

/// A lifecycle that was opened on a checkpoint, after its first `count` pending
/// records were replayed by ascending height.
pub open spec fn replayed(
    checkpoint: CheckpointModel,
    records: Map<u64, PendingModel>,
    count: nat,
) -> LifecycleModel
    decreases count,
{
    if count == 0 {
        opened(checkpoint)
    } else {
        with_submission(
            replayed(checkpoint, records, (count - 1) as nat),
            records[(checkpoint.finalized_height + count) as u64],
        )
    }
}

/// What is stored tells all of a lifecycle at any time: when it was opened, after a
/// block was submitted and its record stored, and after a block was committed, its
/// checkpoint stored and its record removed.
pub proof fn law_store_keeps_up<S: AggregateSignatureScheme>(
    application: ApplicationModel<S>,
    state: LifecycleModel,
    checkpoint: CheckpointModel,
    pending: PendingModel,
    completed: CompletedBlock,
)
    requires
        stored_as(state, checkpoint),
    ensures
        stored_as(opened(checkpoint), checkpoint),
        state.submitted_height < u64::MAX && pending.order.height == next_height(
            state.submitted_height,
        ) ==> stored_as(with_submission(state, pending), checkpoint),
        commits(application, state, completed) ==> {
            let next = checkpoint_of(application, state, completed);
            stored_as(with_commit(state, next), next)
        },
{
}

/// A lifecycle that is opened on the checkpoint of another and replays its pending
/// records is where the other was, with its nonces, and every record is replayed
/// where it belongs.
pub proof fn law_reopening_restores_the_lifecycle(
    state: LifecycleModel,
    checkpoint: CheckpointModel,
    count: nat,
)
    requires
        stored_as(state, checkpoint),
        count <= state.submitted_height - state.committed_height,
    ensures
        count < state.submitted_height - state.committed_height ==> {
            let record = state.pending[(state.committed_height + count + 1) as u64];
            record.order.height == next_height(
                replayed(checkpoint, state.pending, count).submitted_height,
            )
        },
        count == state.submitted_height - state.committed_height ==> replayed(
            checkpoint,
            state.pending,
            count,
        ) == state,
{
    lemma_replayed(state, checkpoint, count);
    let restored = replayed(checkpoint, state.pending, count);
    let height = (state.committed_height + count) as u64;
    if count < state.submitted_height - state.committed_height {
        assert(state.pending.contains_key((height + 1) as u64));
    } else {
        assert(restored.pending =~= state.pending);
        if count > 0 {
            assert(state.pending.contains_key(height));
        }
        assert(restored =~= state);
    }
}

proof fn lemma_replayed(state: LifecycleModel, checkpoint: CheckpointModel, count: nat)
    requires
        stored_as(state, checkpoint),
        count <= state.submitted_height - state.committed_height,
    ensures
        ({
            let restored = replayed(checkpoint, state.pending, count);
            let height = (state.committed_height + count) as u64;
            &&& restored.committed_height == state.committed_height
            &&& restored.committed_block == state.committed_block
            &&& restored.ledger == state.ledger
            &&& restored.submitted_height == height
            &&& forall|other: u64| #[trigger]
                restored.pending.contains_key(other) <==> state.committed_height < other <= height
            &&& forall|other: u64|
                restored.pending.contains_key(other) ==> #[trigger] restored.pending[other]
                    == state.pending[other]
            &&& count > 0 ==> restored.submitted_block == state.pending[height].order.block_id
                && restored.nonces == state.pending[height].next_nonces
            &&& count == 0 ==> restored.submitted_block == checkpoint.finalized_block
                && restored.nonces == checkpoint.next_nonces
        }),
    decreases count,
{
    if count > 0 {
        lemma_replayed(state, checkpoint, (count - 1) as nat);
        assert(state.pending.contains_key((state.committed_height + count) as u64));
    }
}

/// A payload whose base fees do not give the certified commitment is refused.
pub proof fn law_uncertified_fees_are_refused<S: AggregateSignatureScheme>(
    application: ApplicationModel<S>,
    state: LifecycleModel,
    order: OrderModel,
    payload: BlockModel,
    decodings: Seq<PayloadDecoding>,
)
    requires
        fee_commitment_of(payload.base_fees) != order.fee_commitment,
    ensures
        submission_result(application, state, order, payload, decodings) is Err,
{
}

} // verus!
