//! Individually signed votes and the slashing of double votes.

use vstd::prelude::*;

use crate::bytes::{append, append_be64, append_text, be64, copy_bytes, text_bytes};
use crate::consensus::errors::ConsensusError;
use crate::consensus::validators::{member, Validator, ValidatorModel, ValidatorSet};
use crate::crypto::{AggregateSignatureScheme, CryptoError};
use crate::ordered::{OrderedSet, SortKey};
use crate::types::{hash_of, Hash256};

verus! {

/// The first order vote can become an 80% fast certificate or 60% prepare certificate.
#[derive(Clone, Copy, Debug, PartialEq, Eq, PartialOrd, Ord, Structural)]
pub enum VotePhase {
    Order,
    Commit,
    Timeout,
}

/// The byte that stands for a phase in signed messages.
pub open spec fn phase_tag(phase: VotePhase) -> u8 {
    match phase {
        VotePhase::Order => 0,
        VotePhase::Commit => 1,
        VotePhase::Timeout => 2,
    }
}

/// The byte that stands for a phase in signed messages.
pub fn vote_phase_tag(phase: VotePhase) -> (tag: u8)
    ensures
        tag == phase_tag(phase),
{
    match phase {
        VotePhase::Order => 0,
        VotePhase::Commit => 1,
        VotePhase::Timeout => 2,
    }
}

/// The canonical message that a vote signs.
pub open spec fn vote_bytes(height: u64, view: u64, block_id: Hash256, phase: VotePhase) -> Seq<u8> {
    text_bytes("kestrel/consensus/vote/v1") + be64(height) + be64(view) + block_id@ + seq![
        phase_tag(phase),
    ]
}

/// The canonical message that a vote signs.
pub fn vote_message(height: u64, view: u64, block_id: Hash256, phase: VotePhase) -> (message: Vec<u8>)
    ensures
        message@ == vote_bytes(height, view, block_id, phase),
{
    let mut message: Vec<u8> = Vec::new();
    append_text(&mut message, "kestrel/consensus/vote/v1");
    append_be64(&mut message, height);
    append_be64(&mut message, view);
    append(&mut message, block_id.as_bytes());
    message.push(vote_phase_tag(phase));
    assert(message@ =~= vote_bytes(height, view, block_id, phase));
    message
}

/// Two votes that sign one message are votes for the same block in the same
/// round and phase.
pub proof fn law_vote_message_is_injective(
    height: u64,
    view: u64,
    block_id: Hash256,
    phase: VotePhase,
    other_height: u64,
    other_view: u64,
    other_block: Hash256,
    other_phase: VotePhase,
)
    requires
        vote_bytes(height, view, block_id, phase) == vote_bytes(
            other_height,
            other_view,
            other_block,
            other_phase,
        ),
    ensures
        height == other_height,
        view == other_view,
        block_id == other_block,
        phase == other_phase,
{
    let domain = text_bytes("kestrel/consensus/vote/v1");
    crate::bytes::lemma_big_endian_len(height as nat, 8);
    crate::bytes::lemma_big_endian_len(view as nat, 8);
    crate::bytes::lemma_big_endian_len(other_height as nat, 8);
    crate::bytes::lemma_big_endian_len(other_view as nat, 8);
    let a = domain + be64(height);
    let b = a + be64(view);
    let c = b + block_id@;
    let x = domain + be64(other_height);
    let y = x + be64(other_view);
    let z = y + other_block@;
    let left_tag = seq![phase_tag(phase)];
    let right_tag = seq![phase_tag(other_phase)];
    crate::bytes::lemma_concat_injective(c, left_tag, z, right_tag);
    assert(left_tag[0] == right_tag[0]);
    crate::bytes::lemma_concat_injective(b, block_id@, y, other_block@);
    assert(block_id.bytes =~= other_block.bytes);
    crate::bytes::lemma_concat_injective(a, be64(view), x, be64(other_view));
    crate::bytes::lemma_concat_injective(domain, be64(height), domain, be64(other_height));
    crate::bytes::lemma_be64_injective(height, other_height);
    crate::bytes::lemma_be64_injective(view, other_view);
}

/// Individually signed vote. These are aggregated locally and are not stored on-chain.
#[derive(Debug, PartialEq, Eq)]
pub struct Vote {
    pub validator: Hash256,
    pub height: u64,
    pub view: u64,
    pub block_id: Hash256,
    pub phase: VotePhase,
    pub signature: Vec<u8>,
}

/// The value of a vote.
pub struct VoteModel {
    pub validator: Hash256,
    pub height: u64,
    pub view: u64,
    pub block_id: Hash256,
    pub phase: VotePhase,
    pub signature: Seq<u8>,
}

impl View for Vote {
    type V = VoteModel;

    open spec fn view(&self) -> VoteModel {
        VoteModel {
            validator: self.validator,
            height: self.height,
            view: self.view,
            block_id: self.block_id,
            phase: self.phase,
            signature: self.signature@,
        }
    }
}

impl Clone for Vote {
    fn clone(&self) -> (copy: Self)
        ensures
            copy@ == self@,
    {
        Vote {
            validator: self.validator,
            height: self.height,
            view: self.view,
            block_id: self.block_id,
            phase: self.phase,
            signature: copy_bytes(&self.signature),
        }
    }
}

/// The value of a result that carries a vote.
pub open spec fn vote_result(result: Result<Vote, ConsensusError>) -> Result<
    VoteModel,
    ConsensusError,
> {
    match result {
        Ok(vote) => Ok(vote@),
        Err(error) => Err(error),
    }
}

/// What signing a vote gives.
pub open spec fn signed_vote<S: AggregateSignatureScheme>(
    validator: Hash256,
    private_key: Seq<u8>,
    height: u64,
    view: u64,
    block_id: Hash256,
    phase: VotePhase,
    scheme: S,
) -> Result<VoteModel, ConsensusError> {
    match scheme.signature(private_key, vote_bytes(height, view, block_id, phase)) {
        Ok(signature) => Ok(
            VoteModel { validator, height, view, block_id, phase, signature },
        ),
        Err(error) => Err(ConsensusError::Crypto(error)),
    }
}

impl Vote {
    /// Signs one domain-separated canonical vote, which holds under the key
    /// that the private key derives.
    ///
    /// # Errors
    ///
    /// Returns an error for malformed key material.
    pub fn sign<S: AggregateSignatureScheme>(
        validator: Hash256,
        private_key: &[u8],
        height: u64,
        view: u64,
        block_id: Hash256,
        phase: VotePhase,
        scheme: &S,
    ) -> (result: Result<Self, ConsensusError>)
        ensures
            vote_result(result) == signed_vote(
                validator,
                private_key@,
                height,
                view,
                block_id,
                phase,
                *scheme,
            ),
            result matches Ok(vote) ==> (scheme.derived_key(private_key@) matches Ok(key) && (
            !scheme.is_neutral(vote@.signature) ==> vote_signature(vote@, key, *scheme) is Ok)),
    {
        let message = vote_message(height, view, block_id, phase);
        match scheme.sign(private_key, &message) {
            Ok(signature) => Ok(Vote { validator, height, view, block_id, phase, signature }),
            Err(error) => Err(ConsensusError::Crypto(error)),
        }
    }
}

/// Whether a vote's signature holds under its validator's key.
pub open spec fn vote_signature<S: AggregateSignatureScheme>(
    vote: VoteModel,
    public_key: Seq<u8>,
    scheme: S,
) -> Result<(), CryptoError> {
    scheme.verification(
        public_key,
        vote_bytes(vote.height, vote.view, vote.block_id, vote.phase),
        vote.signature,
    )
}

/// What checking a vote from the network gives.
pub open spec fn vote_check<S: AggregateSignatureScheme>(
    vote: VoteModel,
    table: Seq<ValidatorModel>,
    scheme: S,
) -> Result<(), ConsensusError> {
    match member(table, vote.validator) {
        None => Err(ConsensusError::UnknownValidator(vote.validator)),
        Some(validator) => match vote_signature(vote, validator.public_key, scheme) {
            Ok(()) => Ok(()),
            Err(error) => Err(ConsensusError::Crypto(error)),
        },
    }
}

/// Verifies that a vote comes from a known validator and carries its signature.
///
/// # Errors
///
/// Rejects unknown validators and bad signatures.
pub fn verify_vote<S: AggregateSignatureScheme>(
    vote: &Vote,
    validators: &ValidatorSet,
    scheme: &S,
) -> (result: Result<(), ConsensusError>)
    ensures
        result == vote_check(vote@, validators@, *scheme),
{
    match validators.validator(vote.validator) {
        None => Err(ConsensusError::UnknownValidator(vote.validator)),
        Some(validator) => {
            let message = vote_message(vote.height, vote.view, vote.block_id, vote.phase);
            match scheme.verify(&validator.public_key, &message, &vote.signature) {
                Ok(()) => Ok(()),
                Err(error) => Err(ConsensusError::Crypto(error)),
            }
        },
    }
}

/// Two conflicting, individually signed votes proving Byzantine equivocation.
#[derive(Debug, PartialEq, Eq)]
pub struct EquivocationEvidence {
    pub first: Vote,
    pub second: Vote,
}

impl Clone for EquivocationEvidence {
    fn clone(&self) -> (copy: Self)
        ensures
            copy.first@ == self.first@,
            copy.second@ == self.second@,
    {
        EquivocationEvidence { first: self.first.clone(), second: self.second.clone() }
    }
}

/// What an evidence identifier is the digest of, where `low` has the block
/// identifier that is not the greater one.
pub open spec fn evidence_bytes(low: VoteModel, high: VoteModel) -> Seq<u8> {
    text_bytes("kestrel/consensus/equivocation/v1") + low.validator@ + be64(low.height) + be64(
        low.view,
    ) + seq![phase_tag(low.phase)] + low.block_id@ + be64(low.signature.len() as u64)
        + low.signature + high.block_id@ + be64(high.signature.len() as u64) + high.signature
}

/// The identifier of two votes.
pub open spec fn evidence_id(first: VoteModel, second: VoteModel) -> Hash256 {
    if second.block_id.precedes(first.block_id) {
        hash_of(evidence_bytes(second, first))
    } else {
        hash_of(evidence_bytes(first, second))
    }
}

/// Evidence has one identifier, whichever vote comes first.
pub proof fn law_evidence_id_is_order_independent(first: VoteModel, second: VoteModel)
    requires
        first.block_id != second.block_id,
    ensures
        evidence_id(first, second) == evidence_id(second, first),
{
    Hash256::precedes_total(first.block_id, second.block_id);
    if first.block_id.precedes(second.block_id) && second.block_id.precedes(first.block_id) {
        Hash256::precedes_transitive(first.block_id, second.block_id, first.block_id);
        Hash256::precedes_irreflexive(first.block_id);
    }
}

impl EquivocationEvidence {
    /// Returns an order-independent identifier suitable for replay protection.
    pub fn id(&self) -> (id: Hash256)
        ensures
            id == evidence_id(self.first@, self.second@),
    {
        let (first, second) = if self.second.block_id.is_before(&self.first.block_id) {
            (&self.second, &self.first)
        } else {
            (&self.first, &self.second)
        };
        let mut bytes: Vec<u8> = Vec::new();
        append_text(&mut bytes, "kestrel/consensus/equivocation/v1");
        append(&mut bytes, first.validator.as_bytes());
        append_be64(&mut bytes, first.height);
        append_be64(&mut bytes, first.view);
        bytes.push(vote_phase_tag(first.phase));
        append(&mut bytes, first.block_id.as_bytes());
        append_be64(&mut bytes, first.signature.len() as u64);
        append(&mut bytes, &first.signature);
        append(&mut bytes, second.block_id.as_bytes());
        append_be64(&mut bytes, second.signature.len() as u64);
        append(&mut bytes, &second.signature);
        assert(bytes@ =~= evidence_bytes(first@, second@));
        Hash256::digest(&bytes)
    }
}

/// Two votes of one validator for different blocks in one round and phase.
pub open spec fn conflicting(first: VoteModel, second: VoteModel) -> bool {
    &&& first.validator == second.validator
    &&& first.height == second.height
    &&& first.view == second.view
    &&& first.phase == second.phase
    &&& first.block_id != second.block_id
}

/// What checking evidence gives: the guilty validator, or why it is refused.
pub open spec fn evidence_check<S: AggregateSignatureScheme>(
    first: VoteModel,
    second: VoteModel,
    table: Seq<ValidatorModel>,
    scheme: S,
) -> Result<ValidatorModel, ConsensusError> {
    if !conflicting(first, second) {
        Err(ConsensusError::InvalidEquivocationEvidence)
    } else {
        match member(table, first.validator) {
            None => Err(ConsensusError::UnknownValidator(first.validator)),
            Some(validator) => match vote_signature(first, validator.public_key, scheme) {
                Err(error) => Err(ConsensusError::Crypto(error)),
                Ok(()) => match vote_signature(second, validator.public_key, scheme) {
                    Err(error) => Err(ConsensusError::Crypto(error)),
                    Ok(()) => Ok(validator),
                },
            },
        }
    }
}

/// Cryptographically verifies same-height/view/phase double-vote evidence.
///
/// # Errors
///
/// Rejects evidence that is not conflicting, uses different signers/rounds, or
/// contains an invalid signature.
pub fn verify_equivocation_evidence<'a, S: AggregateSignatureScheme>(
    evidence: &EquivocationEvidence,
    validators: &'a ValidatorSet,
    scheme: &S,
) -> (result: Result<&'a Validator, ConsensusError>)
    ensures
        match result {
            Ok(validator) => evidence_check(
                evidence.first@,
                evidence.second@,
                validators@,
                *scheme,
            ) == Ok::<ValidatorModel, ConsensusError>(validator@),
            Err(error) => evidence_check(evidence.first@, evidence.second@, validators@, *scheme)
                == Err::<ValidatorModel, ConsensusError>(error),
        },
{
    let first = &evidence.first;
    let second = &evidence.second;
    if first.validator != second.validator || first.height != second.height || first.view
        != second.view || first.phase != second.phase || first.block_id == second.block_id {
        return Err(ConsensusError::InvalidEquivocationEvidence);
    }
    match validators.validator(first.validator) {
        None => Err(ConsensusError::UnknownValidator(first.validator)),
        Some(validator) => {
            let message = vote_message(first.height, first.view, first.block_id, first.phase);
            match scheme.verify(&validator.public_key, &message, &first.signature) {
                Ok(()) => {},
                Err(error) => {
                    return Err(ConsensusError::Crypto(error));
                },
            }
            let message = vote_message(second.height, second.view, second.block_id, second.phase);
            match scheme.verify(&validator.public_key, &message, &second.signature) {
                Ok(()) => Ok(validator),
                Err(error) => Err(ConsensusError::Crypto(error)),
            }
        },
    }
}

/// Why a validator is penalised.
#[derive(Clone, Copy, Debug, PartialEq, Eq, Structural)]
pub enum SlashingOffence {
    DoubleVote,
}

/// Epoch-bound penalty emitted after cryptographic evidence verification.
#[derive(Clone, Copy, Debug, PartialEq, Eq)]
pub struct SlashingDirective {
    pub evidence_id: Hash256,
    pub validator: Hash256,
    pub slash_stake: u64,
    pub offence: SlashingOffence,
}

/// Genesis-configured penalty policy. It never treats downtime as slashable.
#[derive(Clone, Copy, Debug, PartialEq, Eq)]
pub struct SlashingPolicy {
    equivocation_basis_points: u16,
}

/// The penalty on a stake, rounded up.
pub open spec fn penalty(stake: nat, basis_points: nat) -> nat {
    (stake * basis_points + 9_999) / 10_000
}

/// What judging evidence gives.
pub open spec fn judgement<S: AggregateSignatureScheme>(
    first: VoteModel,
    second: VoteModel,
    basis_points: u16,
    table: Seq<ValidatorModel>,
    scheme: S,
) -> Result<SlashingDirective, ConsensusError> {
    match evidence_check(first, second, table, scheme) {
        Err(error) => Err(error),
        Ok(validator) => Ok(
            SlashingDirective {
                evidence_id: evidence_id(first, second),
                validator: validator.id,
                slash_stake: penalty(validator.stake as nat, basis_points as nat) as u64,
                offence: SlashingOffence::DoubleVote,
            },
        ),
    }
}

impl SlashingPolicy {
    #[verifier::type_invariant]
    spec fn in_range(self) -> bool {
        1 <= self.equivocation_basis_points <= 10_000
    }

    /// The penalty in hundredths of a percent.
    pub closed spec fn basis_points(self) -> u16 {
        self.equivocation_basis_points
    }

    /// Creates an equivocation penalty between 1 and 10,000 basis points.
    ///
    /// # Errors
    ///
    /// Rejects zero or values above 100%.
    pub fn new(equivocation_basis_points: u16) -> (result: Result<Self, ConsensusError>)
        ensures
            match result {
                Ok(policy) => 1 <= equivocation_basis_points <= 10_000 && policy.basis_points()
                    == equivocation_basis_points,
                Err(error) => !(1 <= equivocation_basis_points <= 10_000) && error
                    == ConsensusError::InvalidSlashBasisPoints,
            },
    {
        if equivocation_basis_points < 1 || equivocation_basis_points > 10_000 {
            return Err(ConsensusError::InvalidSlashBasisPoints);
        }
        Ok(SlashingPolicy { equivocation_basis_points })
    }

    /// Verifies evidence and computes the next-epoch stake penalty.
    ///
    /// # Errors
    ///
    /// Rejects malformed evidence, unknown validators, or bad signatures.
    pub fn adjudicate<S: AggregateSignatureScheme>(
        self,
        evidence: &EquivocationEvidence,
        validators: &ValidatorSet,
        scheme: &S,
    ) -> (result: Result<SlashingDirective, ConsensusError>)
        ensures
            result == judgement(
                evidence.first@,
                evidence.second@,
                self.basis_points(),
                validators@,
                *scheme,
            ),
            result matches Ok(directive) ==> exists|stake: u64|
                #![trigger penalty(stake as nat, self.basis_points() as nat)]
                {
                    &&& directive.slash_stake == penalty(
                        stake as nat,
                        self.basis_points() as nat,
                    )
                    &&& member(validators@, directive.validator) is Some
                    &&& member(validators@, directive.validator).unwrap().stake == stake
                    &&& directive.slash_stake <= stake
                    &&& directive.slash_stake * 10_000 >= stake * self.basis_points()
                    &&& (directive.slash_stake - 1) * 10_000 < stake * self.basis_points()
                },
    {
        let validator = match verify_equivocation_evidence(evidence, validators, scheme) {
            Ok(validator) => validator,
            Err(error) => {
                return Err(error);
            },
        };
        proof {
            use_type_invariant(&self);
            let stake = validator.stake as int;
            let points = self.equivocation_basis_points as int;
            assert(0 <= stake * points <= stake * 10_000) by (nonlinear_arith)
                requires
                    0 <= stake,
                    0 <= points <= 10_000,
            ;
        }
        let product: u128 = validator.stake as u128 * self.equivocation_basis_points as u128;
        let slash_stake: u64 = ((product + 9_999) / 10_000) as u64;
        assert(slash_stake == penalty(
            validator.stake as nat,
            self.basis_points() as nat,
        ));
        assert(member(validators@, evidence.first.validator) == Some(validator@));
        proof {
            lemma_member_id(validators@, evidence.first.validator);
        }
        Ok(
            SlashingDirective {
                evidence_id: evidence.id(),
                validator: validator.id,
                slash_stake,
                offence: SlashingOffence::DoubleVote,
            },
        )
    }
}

/// A found member has the identity it was looked up by.
pub proof fn lemma_member_id(list: Seq<ValidatorModel>, id: Hash256)
    ensures
        member(list, id) matches Some(validator) ==> validator.id == id,
{
}

/// Replay-protected evidence intake. Applying stake changes remains an epoch transition.
#[derive(Debug)]
pub struct EvidenceBook {
    applied: OrderedSet<Hash256>,
}

impl View for EvidenceBook {
    type V = Set<Hash256>;

    closed spec fn view(&self) -> Set<Hash256> {
        self.applied@
    }
}

impl Default for EvidenceBook {
    fn default() -> (book: Self)
        ensures
            book@ == Set::<Hash256>::empty(),
    {
        EvidenceBook { applied: OrderedSet::new() }
    }
}

/// What recording evidence gives, where `applied` holds the identifiers
/// recorded before.
pub open spec fn recording(
    judged: Result<SlashingDirective, ConsensusError>,
    applied: Set<Hash256>,
) -> Result<SlashingDirective, ConsensusError> {
    match judged {
        Err(error) => Err(error),
        Ok(directive) => if applied.contains(directive.evidence_id) {
            Err(ConsensusError::EvidenceAlreadyApplied)
        } else {
            Ok(directive)
        },
    }
}

/// The identifiers recorded after evidence was taken in.
pub open spec fn recorded(
    judged: Result<SlashingDirective, ConsensusError>,
    applied: Set<Hash256>,
) -> Set<Hash256> {
    match judged {
        Err(error) => applied,
        Ok(directive) => applied.insert(directive.evidence_id),
    }
}

impl EvidenceBook {
    /// Verifies and records evidence exactly once.
    ///
    /// # Errors
    ///
    /// Rejects invalid or already-recorded evidence.
    pub fn record<S: AggregateSignatureScheme>(
        &mut self,
        evidence: &EquivocationEvidence,
        validators: &ValidatorSet,
        policy: SlashingPolicy,
        scheme: &S,
    ) -> (result: Result<SlashingDirective, ConsensusError>)
        ensures
            ({
                let judged = judgement(
                    evidence.first@,
                    evidence.second@,
                    policy.basis_points(),
                    validators@,
                    *scheme,
                );
                &&& result == recording(judged, old(self)@)
                &&& final(self)@ == recorded(judged, old(self)@)
            }),
    {
        let directive = match policy.adjudicate(evidence, validators, scheme) {
            Ok(directive) => directive,
            Err(error) => {
                return Err(error);
            },
        };
        if !self.applied.insert(directive.evidence_id) {
            return Err(ConsensusError::EvidenceAlreadyApplied);
        }
        Ok(directive)
    }
}

/// Evidence is applied once: after it was taken in, taking it in again, in
/// either order of its votes, is refused.
pub proof fn law_evidence_is_recorded_once<S: AggregateSignatureScheme>(
    first: VoteModel,
    second: VoteModel,
    basis_points: u16,
    table: Seq<ValidatorModel>,
    scheme: S,
    applied: Set<Hash256>,
)
    requires
        judgement(first, second, basis_points, table, scheme) is Ok,
    ensures
        ({
            let judged = judgement(first, second, basis_points, table, scheme);
            let swapped = judgement(second, first, basis_points, table, scheme);
            let after = recorded(judged, applied);
            &&& recording(judged, after) == Err::<SlashingDirective, ConsensusError>(
                ConsensusError::EvidenceAlreadyApplied,
            )
            &&& recording(swapped, after) == Err::<SlashingDirective, ConsensusError>(
                ConsensusError::EvidenceAlreadyApplied,
            )
        }),
{
    law_evidence_id_is_order_independent(first, second);
}

} // verus!
