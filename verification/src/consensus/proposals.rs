//! Proposals, their content identifiers and leader signatures.

use vstd::prelude::*;

use crate::bytes::{
    append, append_be128, append_be64, append_text, be128, be64, copy_bytes, text_bytes,
};
use crate::consensus::certificates::{copy_ids, CertificateModel, QuorumCertificate};
use crate::consensus::errors::ConsensusError;
use crate::consensus::validators::{leader_of, ValidatorModel, ValidatorSet};
use crate::crypto::AggregateSignatureScheme;
use crate::types::{hash_of, Hash256};

verus! {

/// The bytes of identifiers, one after another.
pub open spec fn joined_ids(ids: Seq<Hash256>) -> Seq<u8>
    decreases ids.len(),
{
    if ids.len() == 0 {
        Seq::empty()
    } else {
        joined_ids(ids.drop_last()) + ids.last()@
    }
}

/// The big-endian encodings of fees, one after another.
pub open spec fn joined_fees(fees: Seq<u128>) -> Seq<u8>
    decreases fees.len(),
{
    if fees.len() == 0 {
        Seq::empty()
    } else {
        joined_fees(fees.drop_last()) + be128(fees.last())
    }
}

/// Appends the bytes of identifiers, one after another.
pub fn append_ids(target: &mut Vec<u8>, ids: &[Hash256])
    ensures
        final(target)@ == old(target)@ + joined_ids(ids@),
{
    let ghost before = target@;
    let mut index: usize = 0;
    assert(target@ =~= before + joined_ids(ids@.take(0)));
    while index < ids.len()
        invariant
            index <= ids@.len(),
            target@ == before + joined_ids(ids@.take(index as int)),
        decreases ids@.len() - index,
    {
        append(target, ids[index].as_bytes());
        proof {
            let next = ids@.take(index + 1);
            assert(next.drop_last() =~= ids@.take(index as int));
            assert(next.last() == ids@[index as int]);
            assert(target@ =~= before + joined_ids(next));
        }
        index += 1;
    }
    assert(ids@.take(index as int) =~= ids@);
}

/// Joined identifiers of one count determine the identifiers.
pub proof fn lemma_joined_ids_injective(left: Seq<Hash256>, right: Seq<Hash256>)
    requires
        left.len() == right.len(),
        joined_ids(left) == joined_ids(right),
    ensures
        left == right,
    decreases left.len(),
{
    lemma_joined_ids_len(left);
    lemma_joined_ids_len(right);
    if left.len() == 0 {
        assert(left =~= right);
    } else {
        lemma_joined_ids_len(left.drop_last());
        lemma_joined_ids_len(right.drop_last());
        crate::bytes::lemma_concat_injective(
            joined_ids(left.drop_last()),
            left.last()@,
            joined_ids(right.drop_last()),
            right.last()@,
        );
        lemma_joined_ids_injective(left.drop_last(), right.drop_last());
        assert(left.last().bytes =~= right.last().bytes);
        assert(left =~= left.drop_last().push(left.last()));
        assert(right =~= right.drop_last().push(right.last()));
    }
}

/// Every identifier takes 32 bytes.
pub proof fn lemma_joined_ids_len(ids: Seq<Hash256>)
    ensures
        joined_ids(ids).len() == 32 * ids.len(),
    decreases ids.len(),
{
    if ids.len() > 0 {
        lemma_joined_ids_len(ids.drop_last());
    }
}

/// Joined fees of one count determine the fees.
pub proof fn lemma_joined_fees_injective(left: Seq<u128>, right: Seq<u128>)
    requires
        left.len() == right.len(),
        joined_fees(left) == joined_fees(right),
    ensures
        left == right,
    decreases left.len(),
{
    if left.len() == 0 {
        assert(left =~= right);
    } else {
        lemma_joined_fees_len(left.drop_last());
        lemma_joined_fees_len(right.drop_last());
        crate::bytes::lemma_concat_injective(
            joined_fees(left.drop_last()),
            be128(left.last()),
            joined_fees(right.drop_last()),
            be128(right.last()),
        );
        crate::bytes::lemma_be128_injective(left.last(), right.last());
        lemma_joined_fees_injective(left.drop_last(), right.drop_last());
        assert(left =~= left.drop_last().push(left.last()));
        assert(right =~= right.drop_last().push(right.last()));
    }
}

/// Every fee takes 16 bytes.
pub proof fn lemma_joined_fees_len(fees: Seq<u128>)
    ensures
        joined_fees(fees).len() == 16 * fees.len(),
    decreases fees.len(),
{
    if fees.len() > 0 {
        lemma_joined_fees_len(fees.drop_last());
        crate::bytes::lemma_big_endian_len(fees.last() as nat, 16);
    }
}

/// What a fee commitment is the digest of.
pub open spec fn fee_bytes(base_fees: Seq<u128>) -> Seq<u8> {
    text_bytes("kestrel/consensus/fee-commitment/v1") + be64(base_fees.len() as u64) + joined_fees(
        base_fees,
    )
}

/// The commitment to a leader's base fees.
pub open spec fn fee_commitment_of(base_fees: Seq<u128>) -> Hash256 {
    hash_of(fee_bytes(base_fees))
}

/// Canonical commitment to a leader's chosen per-transaction local base fee,
/// in the same order as the block's `transaction_ids`. Folding this into
/// [`Proposal::block_id`] makes the leader's price choice equivocation-safe:
/// callers that need a settled base fee must recompute this from the actual
/// fees they received and compare it against the certified value rather than
/// trusting an unauthenticated side-channel.
pub fn fee_commitment(base_fees: &[u128]) -> (commitment: Hash256)
    ensures
        commitment == fee_commitment_of(base_fees@),
{
    let mut bytes: Vec<u8> = Vec::new();
    append_text(&mut bytes, "kestrel/consensus/fee-commitment/v1");
    append_be64(&mut bytes, base_fees.len() as u64);
    let ghost prefix = bytes@;
    let mut index: usize = 0;
    assert(bytes@ =~= prefix + joined_fees(base_fees@.take(0)));
    while index < base_fees.len()
        invariant
            index <= base_fees@.len(),
            bytes@ == prefix + joined_fees(base_fees@.take(index as int)),
        decreases base_fees@.len() - index,
    {
        append_be128(&mut bytes, base_fees[index]);
        proof {
            let next = base_fees@.take(index + 1);
            assert(next.drop_last() =~= base_fees@.take(index as int));
            assert(next.last() == base_fees@[index as int]);
            assert(bytes@ =~= prefix + joined_fees(next));
        }
        index += 1;
    }
    assert(base_fees@.take(index as int) =~= base_fees@);
    assert(bytes@ =~= fee_bytes(base_fees@));
    Hash256::digest(&bytes)
}

/// One commitment preimage stands for one list of fees.
pub proof fn law_fee_commitment_is_binding(left: Seq<u128>, right: Seq<u128>)
    requires
        left.len() <= u64::MAX,
        right.len() <= u64::MAX,
        fee_bytes(left) == fee_bytes(right),
    ensures
        left == right,
{
    let domain = text_bytes("kestrel/consensus/fee-commitment/v1");
    let a = be64(left.len() as u64);
    let b = be64(right.len() as u64);
    crate::bytes::lemma_big_endian_len(left.len() as u64 as nat, 8);
    crate::bytes::lemma_big_endian_len(right.len() as u64 as nat, 8);
    crate::bytes::lemma_concat_injective(
        domain + a,
        joined_fees(left),
        domain + b,
        joined_fees(right),
    );
    crate::bytes::lemma_concat_injective(domain, a, domain, b);
    crate::bytes::lemma_be64_injective(left.len() as u64, right.len() as u64);
    lemma_joined_fees_injective(left, right);
}

/// What a block identifier is the digest of.
pub open spec fn block_bytes(
    height: u64,
    parent_id: Hash256,
    transactions: Seq<Hash256>,
    fee_commitment: Hash256,
) -> Seq<u8> {
    text_bytes("kestrel/consensus/block/v1") + be64(height) + parent_id@ + be64(
        transactions.len() as u64,
    ) + joined_ids(transactions) + fee_commitment@
}

/// The identifier of a block: its height, parent, order and fees.
pub open spec fn block_id_of(
    height: u64,
    parent_id: Hash256,
    transactions: Seq<Hash256>,
    fee_commitment: Hash256,
) -> Hash256 {
    hash_of(block_bytes(height, parent_id, transactions, fee_commitment))
}

/// One block preimage stands for one height, parent, order and fee commitment.
pub proof fn law_block_id_is_binding(
    height: u64,
    parent: Hash256,
    transactions: Seq<Hash256>,
    fees: Hash256,
    other_height: u64,
    other_parent: Hash256,
    other_transactions: Seq<Hash256>,
    other_fees: Hash256,
)
    requires
        transactions.len() <= u64::MAX,
        other_transactions.len() <= u64::MAX,
        block_bytes(height, parent, transactions, fees) == block_bytes(
            other_height,
            other_parent,
            other_transactions,
            other_fees,
        ),
    ensures
        height == other_height,
        parent == other_parent,
        transactions == other_transactions,
        fees == other_fees,
{
    let domain = text_bytes("kestrel/consensus/block/v1");
    let count = transactions.len() as u64;
    let other_count = other_transactions.len() as u64;
    crate::bytes::lemma_big_endian_len(height as nat, 8);
    crate::bytes::lemma_big_endian_len(other_height as nat, 8);
    crate::bytes::lemma_big_endian_len(count as nat, 8);
    crate::bytes::lemma_big_endian_len(other_count as nat, 8);
    let a = domain + be64(height);
    let b = a + parent@;
    let c = b + be64(count);
    let d = c + joined_ids(transactions);
    let x = domain + be64(other_height);
    let y = x + other_parent@;
    let z = y + be64(other_count);
    let w = z + joined_ids(other_transactions);
    assert((d + fees@).len() == (w + other_fees@).len());
    crate::bytes::lemma_concat_injective(d, fees@, w, other_fees@);
    assert(d.subrange(0, c.len() as int) =~= c);
    assert(w.subrange(0, z.len() as int) =~= z);
    assert(c.len() == z.len());
    crate::bytes::lemma_concat_injective(
        c,
        joined_ids(transactions),
        z,
        joined_ids(other_transactions),
    );
    crate::bytes::lemma_concat_injective(b, be64(count), y, be64(other_count));
    crate::bytes::lemma_concat_injective(a, parent@, x, other_parent@);
    crate::bytes::lemma_concat_injective(domain, be64(height), domain, be64(other_height));
    crate::bytes::lemma_be64_injective(count, other_count);
    crate::bytes::lemma_be64_injective(height, other_height);
    lemma_joined_ids_injective(transactions, other_transactions);
    assert(parent.bytes =~= other_parent.bytes);
    assert(fees.bytes =~= other_fees.bytes);
}

/// The identifier of a block: its height, parent, order and fees.
pub fn proposal_id(
    height: u64,
    parent_id: Hash256,
    transactions: &[Hash256],
    fee_commitment: Hash256,
) -> (id: Hash256)
    ensures
        id == block_id_of(height, parent_id, transactions@, fee_commitment),
{
    let mut bytes: Vec<u8> = Vec::new();
    append_text(&mut bytes, "kestrel/consensus/block/v1");
    append_be64(&mut bytes, height);
    append(&mut bytes, parent_id.as_bytes());
    append_be64(&mut bytes, transactions.len() as u64);
    append_ids(&mut bytes, transactions);
    append(&mut bytes, fee_commitment.as_bytes());
    assert(bytes@ =~= block_bytes(height, parent_id, transactions@, fee_commitment));
    Hash256::digest(&bytes)
}

/// Proposal whose transaction hashes define only canonical order, not effects.
///
/// `fee_commitment` binds the leader's chosen per-transaction local base fee
/// (see [`fee_commitment`]) into `block_id` itself, the same way
/// `transaction_ids` does for ordering. Without this, a leader could send
/// different honest validators different fee choices for an otherwise
/// identical, equally-certifiable block, producing a settlement amount that
/// silently diverges across honest nodes despite everyone agreeing on
/// `block_id`.
#[derive(Debug, PartialEq, Eq)]
pub struct Proposal {
    pub height: u64,
    pub view: u64,
    pub parent_id: Hash256,
    pub proposer: Hash256,
    pub transaction_ids: Vec<Hash256>,
    pub fee_commitment: Hash256,
    pub justify: Option<Box<QuorumCertificate>>,
    pub block_id: Hash256,
}

/// The value of a proposal.
pub struct ProposalModel {
    pub height: u64,
    pub view: u64,
    pub parent_id: Hash256,
    pub proposer: Hash256,
    pub transaction_ids: Seq<Hash256>,
    pub fee_commitment: Hash256,
    pub justify: Option<CertificateModel>,
    pub block_id: Hash256,
}

impl View for Proposal {
    type V = ProposalModel;

    open spec fn view(&self) -> ProposalModel {
        ProposalModel {
            height: self.height,
            view: self.view,
            parent_id: self.parent_id,
            proposer: self.proposer,
            transaction_ids: self.transaction_ids@,
            fee_commitment: self.fee_commitment,
            justify: match self.justify {
                Some(certificate) => Some(certificate@),
                None => None,
            },
            block_id: self.block_id,
        }
    }
}

impl Clone for Proposal {
    fn clone(&self) -> (copy: Self)
        ensures
            copy@ == self@,
    {
        Proposal {
            height: self.height,
            view: self.view,
            parent_id: self.parent_id,
            proposer: self.proposer,
            transaction_ids: copy_ids(&self.transaction_ids),
            fee_commitment: self.fee_commitment,
            justify: match &self.justify {
                Some(certificate) => Some(Box::new((&**certificate).clone())),
                None => None,
            },
            block_id: self.block_id,
        }
    }
}

/// Whether a proposal carries the identifier of its contents.
pub open spec fn id_matches(proposal: ProposalModel) -> bool {
    proposal.block_id == block_id_of(
        proposal.height,
        proposal.parent_id,
        proposal.transaction_ids,
        proposal.fee_commitment,
    )
}

/// The value of an optional certificate.
pub open spec fn optional_certificate(value: Option<QuorumCertificate>) -> Option<
    CertificateModel,
> {
    match value {
        Some(certificate) => Some(certificate@),
        None => None,
    }
}

impl Proposal {
    /// A proposal that carries the identifier of its contents.
    pub fn new(
        height: u64,
        view: u64,
        parent_id: Hash256,
        proposer: Hash256,
        transaction_ids: Vec<Hash256>,
        fee_commitment: Hash256,
        justify: Option<QuorumCertificate>,
    ) -> (proposal: Self)
        ensures
            proposal@ == (ProposalModel {
                height,
                view,
                parent_id,
                proposer,
                transaction_ids: transaction_ids@,
                fee_commitment,
                justify: optional_certificate(justify),
                block_id: block_id_of(height, parent_id, transaction_ids@, fee_commitment),
            }),
            id_matches(proposal@),
    {
        let block_id = proposal_id(height, parent_id, &transaction_ids, fee_commitment);
        Proposal {
            height,
            view,
            parent_id,
            proposer,
            transaction_ids,
            fee_commitment,
            justify: match justify {
                Some(certificate) => Some(Box::new(certificate)),
                None => None,
            },
            block_id,
        }
    }

    /// Whether the proposal carries the identifier of its contents.
    pub fn has_valid_id(&self) -> (valid: bool)
        ensures
            valid == id_matches(self@),
    {
        self.block_id == proposal_id(
            self.height,
            self.parent_id,
            &self.transaction_ids,
            self.fee_commitment,
        )
    }
}

/// The canonical message that a leader signs.
pub open spec fn proposal_bytes(proposal: ProposalModel) -> Seq<u8> {
    text_bytes("kestrel/consensus/proposal-signature/v1") + be64(proposal.height) + be64(
        proposal.view,
    ) + proposal.parent_id@ + proposal.proposer@ + proposal.block_id@ + be64(
        proposal.transaction_ids.len() as u64,
    ) + joined_ids(proposal.transaction_ids)
}

/// The canonical message that a leader signs.
pub fn proposal_signature_message(proposal: &Proposal) -> (message: Vec<u8>)
    ensures
        message@ == proposal_bytes(proposal@),
{
    let mut bytes: Vec<u8> = Vec::new();
    append_text(&mut bytes, "kestrel/consensus/proposal-signature/v1");
    append_be64(&mut bytes, proposal.height);
    append_be64(&mut bytes, proposal.view);
    append(&mut bytes, proposal.parent_id.as_bytes());
    append(&mut bytes, proposal.proposer.as_bytes());
    append(&mut bytes, proposal.block_id.as_bytes());
    append_be64(&mut bytes, proposal.transaction_ids.len() as u64);
    append_ids(&mut bytes, &proposal.transaction_ids);
    assert(bytes@ =~= proposal_bytes(proposal@));
    bytes
}

/// Authenticated leader proposal suitable for an untrusted network transport.
#[derive(Debug, PartialEq, Eq)]
pub struct SignedProposal {
    pub proposal: Proposal,
    pub signature: Vec<u8>,
}

/// The value of a signed proposal.
pub struct SignedProposalModel {
    pub proposal: ProposalModel,
    pub signature: Seq<u8>,
}

impl View for SignedProposal {
    type V = SignedProposalModel;

    open spec fn view(&self) -> SignedProposalModel {
        SignedProposalModel { proposal: self.proposal@, signature: self.signature@ }
    }
}

impl Clone for SignedProposal {
    fn clone(&self) -> (copy: Self)
        ensures
            copy@ == self@,
    {
        SignedProposal {
            proposal: self.proposal.clone(),
            signature: copy_bytes(&self.signature),
        }
    }
}

/// What signing a proposal gives.
pub open spec fn signed_proposal<S: AggregateSignatureScheme>(
    proposal: ProposalModel,
    private_key: Seq<u8>,
    scheme: S,
) -> Result<SignedProposalModel, ConsensusError> {
    match scheme.signature(private_key, proposal_bytes(proposal)) {
        Ok(signature) => Ok(SignedProposalModel { proposal, signature }),
        Err(error) => Err(ConsensusError::Crypto(error)),
    }
}

/// The value of a result that carries a signed proposal.
pub open spec fn proposal_result(result: Result<SignedProposal, ConsensusError>) -> Result<
    SignedProposalModel,
    ConsensusError,
> {
    match result {
        Ok(signed) => Ok(signed@),
        Err(error) => Err(error),
    }
}

/// What verifying a signed proposal gives.
pub open spec fn proposal_check<S: AggregateSignatureScheme>(
    signed: SignedProposalModel,
    table: Seq<ValidatorModel>,
    scheme: S,
) -> Result<(), ConsensusError> {
    let proposal = signed.proposal;
    let leader = leader_of(table, proposal.height, proposal.view);
    if !id_matches(proposal) {
        Err(ConsensusError::InvalidProposal)
    } else if leader.id != proposal.proposer {
        Err(ConsensusError::WrongLeader)
    } else {
        match scheme.verification(leader.public_key, proposal_bytes(proposal), signed.signature) {
            Ok(()) => Ok(()),
            Err(error) => Err(ConsensusError::Crypto(error)),
        }
    }
}

/// Whether a proposal with a valid identity verifies wherever its proposer
/// leads its round under the given key.
pub open spec fn own_proposal_verifies<S: AggregateSignatureScheme>(
    signed: SignedProposalModel,
    key: Seq<u8>,
    scheme: S,
) -> bool {
    forall|table: Seq<ValidatorModel>|
        id_matches(signed.proposal) && leader_of(
            table,
            signed.proposal.height,
            signed.proposal.view,
        ).id == signed.proposal.proposer && leader_of(
            table,
            signed.proposal.height,
            signed.proposal.view,
        ).public_key == key ==> #[trigger] proposal_check(signed, table, scheme) is Ok
}

impl SignedProposal {
    /// Signs a complete proposal, including its height, view, parent and order.
    /// The leader's own signature verifies.
    ///
    /// # Errors
    ///
    /// Returns an error for malformed private-key material.
    pub fn sign<S: AggregateSignatureScheme>(
        proposal: Proposal,
        private_key: &[u8],
        scheme: &S,
    ) -> (result: Result<Self, ConsensusError>)
        ensures
            proposal_result(result) == signed_proposal(proposal@, private_key@, *scheme),
            result matches Ok(signed) ==> (scheme.derived_key(private_key@) matches Ok(key) && (
            !scheme.is_neutral(signed@.signature) ==> own_proposal_verifies(
                signed@,
                key,
                *scheme,
            ))),
    {
        let message = proposal_signature_message(&proposal);
        match scheme.sign(private_key, &message) {
            Ok(signature) => Ok(SignedProposal { proposal, signature }),
            Err(error) => Err(ConsensusError::Crypto(error)),
        }
    }

    /// Verifies block identity, deterministic leader selection, and signature.
    ///
    /// # Errors
    ///
    /// Rejects invalid proposal fields, a wrong leader, or a bad signature.
    pub fn verify<S: AggregateSignatureScheme>(
        &self,
        validators: &ValidatorSet,
        scheme: &S,
    ) -> (result: Result<(), ConsensusError>)
        ensures
            result == proposal_check(self@, validators@, *scheme),
    {
        if !self.proposal.has_valid_id() {
            return Err(ConsensusError::InvalidProposal);
        }
        let leader = validators.leader(self.proposal.height, self.proposal.view);
        if leader.id != self.proposal.proposer {
            return Err(ConsensusError::WrongLeader);
        }
        let message = proposal_signature_message(&self.proposal);
        match validators.validator(self.proposal.proposer) {
            None => Err(ConsensusError::UnknownValidator(self.proposal.proposer)),
            Some(validator) => match scheme.verify(
                &validator.public_key,
                &message,
                &self.signature,
            ) {
                Ok(()) => Ok(()),
                Err(error) => Err(ConsensusError::Crypto(error)),
            },
        }
    }
}

/// Finalized consensus output. It commits only to transaction order.
#[derive(Debug, PartialEq, Eq)]
pub struct FinalizedOrder {
    pub height: u64,
    pub block_id: Hash256,
    pub transaction_ids: Vec<Hash256>,
    pub fee_commitment: Hash256,
    pub certificate: QuorumCertificate,
}

/// The value of a finalized order.
pub struct OrderModel {
    pub height: u64,
    pub block_id: Hash256,
    pub transaction_ids: Seq<Hash256>,
    pub fee_commitment: Hash256,
    pub certificate: CertificateModel,
}

impl View for FinalizedOrder {
    type V = OrderModel;

    open spec fn view(&self) -> OrderModel {
        OrderModel {
            height: self.height,
            block_id: self.block_id,
            transaction_ids: self.transaction_ids@,
            fee_commitment: self.fee_commitment,
            certificate: self.certificate@,
        }
    }
}

impl Clone for FinalizedOrder {
    fn clone(&self) -> (copy: Self)
        ensures
            copy@ == self@,
    {
        FinalizedOrder {
            height: self.height,
            block_id: self.block_id,
            transaction_ids: copy_ids(&self.transaction_ids),
            fee_commitment: self.fee_commitment,
            certificate: self.certificate.clone(),
        }
    }
}

} // verus!
