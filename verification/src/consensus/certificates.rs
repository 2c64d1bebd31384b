//! Aggregate quorum certificates: collecting votes into one and verifying one.

use std::sync::Arc;

use vstd::prelude::*;

use crate::bytes::{copy_bytes, same_bytes};
use crate::consensus::errors::ConsensusError;
use crate::consensus::validators::{
    member, stake_of, threshold, threshold_of, total_of, valid_table, ValidatorModel, ValidatorSet,
    FALLBACK_PERCENT, FAST_PERCENT,
};
use crate::consensus::votes::{
    vote_bytes, vote_message, vote_signature, Vote, VoteModel, VotePhase,
};
use crate::crypto::{byte_strings, each_verifies, AggregateSignatureScheme};
use crate::ordered::{sorted_keys, strictly_sorted, OrderedMap, SortKey};
use crate::types::Hash256;

verus! {

/// Meaning assigned to an aggregate certificate.
#[derive(Clone, Copy, Debug, PartialEq, Eq, Structural)]
pub enum CertificateKind {
    Fast,
    Prepare,
    Commit,
    Timeout,
}

/// The phase of the votes that a kind of certificate combines.
pub open spec fn phase_of(kind: CertificateKind) -> VotePhase {
    match kind {
        CertificateKind::Fast | CertificateKind::Prepare => VotePhase::Order,
        CertificateKind::Commit => VotePhase::Commit,
        CertificateKind::Timeout => VotePhase::Timeout,
    }
}

/// The share of the stake that a kind of certificate requires.
pub open spec fn percent_of(kind: CertificateKind) -> nat {
    match kind {
        CertificateKind::Fast => 80,
        _ => 60,
    }
}

impl CertificateKind {
    /// The phase of the votes that this kind combines.
    pub fn vote_phase(self) -> (phase: VotePhase)
        ensures
            phase == phase_of(self),
    {
        match self {
            CertificateKind::Fast | CertificateKind::Prepare => VotePhase::Order,
            CertificateKind::Commit => VotePhase::Commit,
            CertificateKind::Timeout => VotePhase::Timeout,
        }
    }

    /// The share of the stake that this kind requires.
    pub fn required_percent(self) -> (percent: u128)
        ensures
            percent == percent_of(self),
    {
        match self {
            CertificateKind::Fast => FAST_PERCENT,
            CertificateKind::Prepare | CertificateKind::Commit | CertificateKind::Timeout => {
                FALLBACK_PERCENT
            },
        }
    }
}

/// Compact aggregate certificate suitable for gossip and durable storage.
#[derive(Debug, PartialEq, Eq)]
pub struct QuorumCertificate {
    pub kind: CertificateKind,
    pub height: u64,
    pub view: u64,
    pub block_id: Hash256,
    pub signers: Vec<Hash256>,
    pub signed_stake: u128,
    pub aggregate_signature: Vec<u8>,
}

/// The value of a certificate.
pub struct CertificateModel {
    pub kind: CertificateKind,
    pub height: u64,
    pub view: u64,
    pub block_id: Hash256,
    pub signers: Seq<Hash256>,
    pub signed_stake: u128,
    pub aggregate_signature: Seq<u8>,
}

impl View for QuorumCertificate {
    type V = CertificateModel;

    open spec fn view(&self) -> CertificateModel {
        CertificateModel {
            kind: self.kind,
            height: self.height,
            view: self.view,
            block_id: self.block_id,
            signers: self.signers@,
            signed_stake: self.signed_stake,
            aggregate_signature: self.aggregate_signature@,
        }
    }
}

/// An owned copy of a list of identifiers.
pub fn copy_ids(source: &[Hash256]) -> (copy: Vec<Hash256>)
    ensures
        copy@ == source@,
{
    let mut copy: Vec<Hash256> = Vec::new();
    let mut index: usize = 0;
    while index < source.len()
        invariant
            index <= source@.len(),
            copy@ == source@.take(index as int),
        decreases source@.len() - index,
    {
        copy.push(source[index]);
        index += 1;
        assert(copy@ =~= source@.take(index as int));
    }
    assert(copy@ =~= source@);
    copy
}

impl Clone for QuorumCertificate {
    fn clone(&self) -> (copy: Self)
        ensures
            copy@ == self@,
    {
        QuorumCertificate {
            kind: self.kind,
            height: self.height,
            view: self.view,
            block_id: self.block_id,
            signers: copy_ids(&self.signers),
            signed_stake: self.signed_stake,
            aggregate_signature: copy_bytes(&self.aggregate_signature),
        }
    }
}

/// Adds up the stake of signers one after another: the sum, or the first
/// reason to refuse one.
pub open spec fn tally(table: Seq<ValidatorModel>, signers: Seq<Hash256>) -> Result<
    nat,
    ConsensusError,
>
    decreases signers.len(),
{
    if signers.len() == 0 {
        Ok(0)
    } else {
        match tally(table, signers.drop_last()) {
            Err(error) => Err(error),
            Ok(sum) => match member(table, signers.last()) {
                None => Err(ConsensusError::UnknownValidator(signers.last())),
                Some(validator) => if sum + validator.stake > u128::MAX {
                    Err(ConsensusError::StakeOverflow)
                } else {
                    Ok(sum + validator.stake as nat)
                },
            },
        }
    }
}

/// The public keys of signers, in order.
pub open spec fn signer_keys(table: Seq<ValidatorModel>, signers: Seq<Hash256>) -> Seq<Seq<u8>> {
    signers.map_values(|id: Hash256| member(table, id).unwrap().public_key)
}

/// What verifying a certificate gives.
pub open spec fn certificate_check<S: AggregateSignatureScheme>(
    certificate: CertificateModel,
    table: Seq<ValidatorModel>,
    scheme: S,
) -> Result<(), ConsensusError> {
    let required = threshold_of(total_of(table), percent_of(certificate.kind));
    if certificate.signers.len() == 0 || !strictly_sorted(certificate.signers) {
        Err(ConsensusError::InvalidSignerSet)
    } else {
        match tally(table, certificate.signers) {
            Err(error) => Err(error),
            Ok(stake) => if stake != certificate.signed_stake {
                Err(ConsensusError::IncorrectSignedStake)
            } else if stake < required {
                Err(
                    ConsensusError::InsufficientStake {
                        required: required as u128,
                        received: stake as u128,
                    },
                )
            } else {
                match scheme.aggregate_verification(
                    signer_keys(table, certificate.signers),
                    vote_bytes(
                        certificate.height,
                        certificate.view,
                        certificate.block_id,
                        phase_of(certificate.kind),
                    ),
                    certificate.aggregate_signature,
                ) {
                    Ok(()) => Ok(()),
                    Err(error) => Err(ConsensusError::Crypto(error)),
                }
            },
        }
    }
}

/// Whether identifiers ascend strictly.
fn signers_ascend(signers: &[Hash256]) -> (ascend: bool)
    ensures
        ascend == strictly_sorted(signers@),
{
    if signers.len() == 0 {
        return true;
    }
    let mut index: usize = 1;
    while index < signers.len()
        invariant
            1 <= index <= signers@.len(),
            strictly_sorted(signers@.take(index as int)),
        decreases signers@.len() - index,
    {
        let ghost seen = signers@.take(index as int);
        let ghost next = signers@.take(index + 1);
        if !signers[index - 1].is_before(&signers[index]) {
            assert(!signers@[index - 1].precedes(signers@[index as int]));
            return false;
        }
        proof {
            assert forall|i: int, j: int| #![trigger next[i], next[j]]
                0 <= i < j < next.len() implies next[i].precedes(next[j]) by {
                if j < index {
                    assert(seen[i].precedes(seen[j]));
                } else if i < index - 1 {
                    assert(seen[i].precedes(seen[index - 1]));
                    Hash256::precedes_transitive(next[i], next[index - 1], next[j]);
                }
            }
        }
        index += 1;
    }
    assert(signers@.take(index as int) =~= signers@);
    true
}

proof fn lemma_tally_fails(table: Seq<ValidatorModel>, signers: Seq<Hash256>, count: int)
    requires
        0 < count <= signers.len(),
        tally(table, signers.take(count)) is Err,
    ensures
        tally(table, signers) == tally(table, signers.take(count)),
    decreases signers.len(),
{
    if count == signers.len() {
        assert(signers.take(count) =~= signers);
    } else {
        assert(signers.drop_last().take(count) =~= signers.take(count));
        lemma_tally_fails(table, signers.drop_last(), count);
    }
}

/// Verifies signer identity, exact stake, threshold, and BLS aggregate.
///
/// # Errors
///
/// Rejects every malformed or under-threshold certificate.
pub fn verify_certificate<S: AggregateSignatureScheme>(
    certificate: &QuorumCertificate,
    validators: &ValidatorSet,
    scheme: &S,
) -> (result: Result<(), ConsensusError>)
    ensures
        result == certificate_check(certificate@, validators@, *scheme),
{
    if certificate.signers.len() == 0 || !signers_ascend(&certificate.signers) {
        return Err(ConsensusError::InvalidSignerSet);
    }
    let ghost signers = certificate.signers@;
    let ghost table = validators@;
    let mut stake: u128 = 0;
    let mut public_keys: Vec<Vec<u8>> = Vec::new();
    let mut index: usize = 0;
    assert(signers.take(0) =~= Seq::<Hash256>::empty());
    assert(byte_strings(public_keys@) =~= signer_keys(table, signers.take(0)));
    while index < certificate.signers.len()
        invariant
            index <= signers.len(),
            signers == certificate.signers@,
            signers.len() > 0,
            strictly_sorted(signers),
            table == validators@,
            tally(table, signers.take(index as int)) == Ok::<nat, ConsensusError>(stake as nat),
            byte_strings(public_keys@) == signer_keys(table, signers.take(index as int)),
        decreases signers.len() - index,
    {
        let signer = certificate.signers[index];
        let ghost seen = signers.take(index as int);
        let ghost next = signers.take(index + 1);
        proof {
            assert(next.drop_last() =~= seen);
            assert(next.last() == signer);
        }
        match validators.validator(signer) {
            None => {
                proof {
                    lemma_tally_fails(table, signers, index + 1);
                }
                return Err(ConsensusError::UnknownValidator(signer));
            },
            Some(validator) => {
                match stake.checked_add(validator.stake as u128) {
                    Some(sum) => {
                        stake = sum;
                    },
                    None => {
                        proof {
                            lemma_tally_fails(table, signers, index + 1);
                        }
                        return Err(ConsensusError::StakeOverflow);
                    },
                }
                let ghost before = byte_strings(public_keys@);
                let key = copy_bytes(&validator.public_key);
                public_keys.push(key);
                assert(byte_strings(public_keys@) =~= before.push(validator@.public_key));
                assert(signer_keys(table, next) =~= signer_keys(table, seen).push(
                    validator@.public_key,
                ));
            },
        }
        index += 1;
    }
    assert(signers.take(index as int) =~= signers);
    if stake != certificate.signed_stake {
        return Err(ConsensusError::IncorrectSignedStake);
    }
    let required: u128 = threshold(validators.total_stake(), certificate.kind.required_percent());
    if stake < required {
        return Err(ConsensusError::InsufficientStake { required, received: stake });
    }
    let message = vote_message(
        certificate.height,
        certificate.view,
        certificate.block_id,
        certificate.kind.vote_phase(),
    );
    match scheme.verify_aggregate(&public_keys, &message, &certificate.aggregate_signature) {
        Ok(()) => Ok(()),
        Err(error) => Err(ConsensusError::Crypto(error)),
    }
}

/// The votes gathered for one target.
#[verifier::ext_equal]
pub struct CollectorModel {
    pub table: Seq<ValidatorModel>,
    pub kind: CertificateKind,
    pub height: u64,
    pub view: u64,
    pub block_id: Hash256,
    pub votes: Map<Hash256, Seq<u8>>,
}

/// The signatures by validator.
pub open spec fn signatures_of(votes: Map<Hash256, Vec<u8>>) -> Map<Hash256, Seq<u8>> {
    votes.map_values(|signature: Vec<u8>| signature@)
}

/// The signatures of validators in the order of `signers`.
pub open spec fn in_order(votes: Map<Hash256, Seq<u8>>, signers: Seq<Hash256>) -> Seq<Seq<u8>> {
    signers.map_values(|id: Hash256| votes[id])
}

/// `signers` are the validators that voted, in ascending order.
pub open spec fn lists_voters(votes: Map<Hash256, Seq<u8>>, signers: Seq<Hash256>) -> bool {
    &&& strictly_sorted(signers)
    &&& forall|id: Hash256| signers.contains(id) <==> votes.contains_key(id)
}

/// The certificate that gathered votes make, once their stake suffices.
pub open spec fn assembled<S: AggregateSignatureScheme>(
    state: CollectorModel,
    signers: Seq<Hash256>,
    scheme: S,
) -> Result<Option<CertificateModel>, ConsensusError> {
    let stake = stake_of(state.table, state.votes.dom());
    if stake < threshold_of(total_of(state.table), percent_of(state.kind)) {
        Ok(None)
    } else {
        match scheme.aggregation(in_order(state.votes, signers)) {
            Err(error) => Err(ConsensusError::Crypto(error)),
            Ok(aggregate_signature) => Ok(
                Some(
                    CertificateModel {
                        kind: state.kind,
                        height: state.height,
                        view: state.view,
                        block_id: state.block_id,
                        signers,
                        signed_stake: stake as u128,
                        aggregate_signature,
                    },
                ),
            ),
        }
    }
}

/// The value of a result that may carry a certificate.
pub open spec fn certificate_result(
    result: Result<Option<QuorumCertificate>, ConsensusError>,
) -> Result<Option<CertificateModel>, ConsensusError> {
    match result {
        Ok(Some(certificate)) => Ok(Some(certificate@)),
        Ok(None) => Ok(None),
        Err(error) => Err(error),
    }
}

/// Why a collector refuses a vote; `None` where it counts it or has counted it.
pub open spec fn vote_refusal<S: AggregateSignatureScheme>(
    state: CollectorModel,
    vote: VoteModel,
    scheme: S,
) -> Option<ConsensusError> {
    if vote.height != state.height || vote.view != state.view || vote.block_id != state.block_id
        || vote.phase != phase_of(state.kind) {
        Some(ConsensusError::VoteTargetMismatch)
    } else {
        match member(state.table, vote.validator) {
            None => Some(ConsensusError::UnknownValidator(vote.validator)),
            Some(validator) => match vote_signature(vote, validator.public_key, scheme) {
                Err(error) => Some(ConsensusError::Crypto(error)),
                Ok(()) => if state.votes.contains_key(vote.validator) && state.votes[vote.validator]
                    != vote.signature {
                    Some(ConsensusError::Equivocation(vote.validator))
                } else {
                    None
                },
            },
        }
    }
}

/// Whether a certificate verifies, unless its aggregate signature is the
/// neutral group element.
pub open spec fn stands<S: AggregateSignatureScheme>(
    certificate: CertificateModel,
    table: Seq<ValidatorModel>,
    scheme: S,
) -> bool {
    !scheme.is_neutral(certificate.aggregate_signature) ==> certificate_check(
        certificate,
        table,
        scheme,
    ) is Ok
}

/// Whether the gathered votes have the stake that their certificate needs.
pub open spec fn has_quorum(state: CollectorModel) -> bool {
    stake_of(state.table, state.votes.dom()) >= threshold_of(
        total_of(state.table),
        percent_of(state.kind),
    )
}

/// Whether a certificate lists the gathered votes in ascending order with their
/// exact stake, and verifies unless its aggregate signature is the neutral group
/// element.
pub open spec fn certifies<S: AggregateSignatureScheme>(
    certificate: CertificateModel,
    state: CollectorModel,
    scheme: S,
) -> bool {
    &&& lists_voters(state.votes, certificate.signers)
    &&& certificate.signed_stake == stake_of(state.table, state.votes.dom())
    &&& stands(certificate, state.table, scheme)
}

/// Whether every counted vote is a known validator's, and verifies.
pub open spec fn votes_verify<S: AggregateSignatureScheme>(state: CollectorModel, scheme: S) -> bool {
    forall|id: Hash256| #[trigger]
        state.votes.contains_key(id) ==> (member(state.table, id) matches Some(validator)
            && scheme.verification(
            validator.public_key,
            vote_bytes(state.height, state.view, state.block_id, phase_of(state.kind)),
            state.votes[id],
        ) is Ok)
}

/// The collector after it counted a vote.
pub open spec fn with_vote(state: CollectorModel, vote: VoteModel) -> CollectorModel {
    CollectorModel { votes: state.votes.insert(vote.validator, vote.signature), ..state }
}

/// Local collector. Individual votes remain off-chain and disappear after aggregation.
pub struct VoteCollector<'a, S: AggregateSignatureScheme> {
    validators: &'a ValidatorSet,
    scheme: Arc<S>,
    kind: CertificateKind,
    height: u64,
    view: u64,
    block_id: Hash256,
    votes: OrderedMap<Hash256, Vec<u8>>,
    signed_stake: u128,
}

impl<'a, S: AggregateSignatureScheme> View for VoteCollector<'a, S> {
    type V = CollectorModel;

    closed spec fn view(&self) -> CollectorModel {
        CollectorModel {
            table: self.validators@,
            kind: self.kind,
            height: self.height,
            view: self.view,
            block_id: self.block_id,
            votes: signatures_of(self.votes@),
        }
    }
}

impl<'a, S: AggregateSignatureScheme> VoteCollector<'a, S> {
    #[verifier::type_invariant]
    spec fn consistent(self) -> bool {
        &&& self.signed_stake == stake_of(self.validators@, self.votes@.dom())
        &&& votes_verify(self@, *self.scheme)
    }

    /// The scheme that votes are verified with.
    pub closed spec fn scheme_used(&self) -> S {
        *self.scheme
    }

    /// A collector without votes.
    pub fn new(
        validators: &'a ValidatorSet,
        scheme: Arc<S>,
        kind: CertificateKind,
        height: u64,
        view: u64,
        block_id: Hash256,
    ) -> (collector: Self)
        ensures
            collector@ == (CollectorModel {
                table: validators@,
                kind,
                height,
                view,
                block_id,
                votes: Map::empty(),
            }),
            collector.scheme_used() == *scheme,
    {
        let votes: OrderedMap<Hash256, Vec<u8>> = OrderedMap::new();
        proof {
            lemma_stake_of_none(validators@, votes@.dom());
            assert(signatures_of(votes@) =~= Map::<Hash256, Seq<u8>>::empty());
        }
        VoteCollector {
            validators,
            scheme,
            kind,
            height,
            view,
            block_id,
            votes,
            signed_stake: 0,
        }
    }

    /// Validates and inserts a vote. Returns a certificate exactly once its threshold is met:
    /// it lists the voters in ascending order with their exact stake, and it verifies unless
    /// its aggregate signature is the neutral group element.
    ///
    /// # Errors
    ///
    /// Rejects unknown signers, wrong targets, malformed signatures, and equivocation
    /// observed by this collector.
    pub fn add_vote(&mut self, vote: Vote) -> (result: Result<
        Option<QuorumCertificate>,
        ConsensusError,
    >)
        ensures
            final(self).scheme_used() == old(self).scheme_used(),
            match vote_refusal(old(self)@, vote@, old(self).scheme_used()) {
                Some(error) => final(self)@ == old(self)@ && (result matches Err(e) && e == error),
                None => {
                    &&& final(self)@ == with_vote(old(self)@, vote@)
                    &&& certificate_result(result) == assembled(
                        final(self)@,
                        sorted_keys(final(self)@.votes.dom()),
                        final(self).scheme_used(),
                    )
                    &&& result is Ok
                    &&& result.unwrap() is Some <==> has_quorum(final(self)@)
                },
            },
            result matches Ok(Some(certificate)) ==> certifies(
                certificate@,
                final(self)@,
                final(self).scheme_used(),
            ),
    {
        if vote.height != self.height || vote.view != self.view || vote.block_id != self.block_id
            || vote.phase != self.kind.vote_phase() {
            return Err(ConsensusError::VoteTargetMismatch);
        }
        proof {
            use_type_invariant(&*self);
        }
        let validator = match self.validators.validator(vote.validator) {
            Some(validator) => validator,
            None => {
                return Err(ConsensusError::UnknownValidator(vote.validator));
            },
        };
        let message = vote_message(vote.height, vote.view, vote.block_id, vote.phase);
        match self.scheme.verify(&validator.public_key, &message, &vote.signature) {
            Ok(()) => {},
            Err(error) => {
                return Err(ConsensusError::Crypto(error));
            },
        }
        let ghost before = self.votes@;
        let ghost table = self.validators@;
        let known = match self.votes.get(&vote.validator) {
            Some(existing) => {
                if !same_bytes(existing, &vote.signature) {
                    return Err(ConsensusError::Equivocation(vote.validator));
                }
                true
            },
            None => false,
        };
        if known {
            assert(with_vote(self@, vote@) =~= self@);
            return self.certificate_if_ready();
        }
        let total: u128 = self.validators.total_stake();
        proof {
            lemma_stake_of_insert(table, before.dom(), vote.validator);
            crate::consensus::validators::lemma_stake_at_most_total(
                table,
                before.dom().insert(vote.validator),
            );
        }
        let signed_stake: u128 = self.signed_stake + validator.stake as u128;
        let mut votes: OrderedMap<Hash256, Vec<u8>> = OrderedMap::new();
        self.exchange(&mut votes);
        let ghost vote_value = vote@;
        let _ = votes.insert(vote.validator, vote.signature);
        proof {
            assert(votes@.dom() =~= before.dom().insert(vote.validator));
            assert(signatures_of(votes@) =~= signatures_of(before).insert(
                vote_value.validator,
                vote_value.signature,
            ));
        }
        *self = VoteCollector {
            validators: self.validators,
            scheme: self.scheme.clone(),
            kind: self.kind,
            height: self.height,
            view: self.view,
            block_id: self.block_id,
            votes,
            signed_stake,
        };
        self.certificate_if_ready()
    }

    /// Takes the gathered votes out.
    fn exchange(&mut self, votes: &mut OrderedMap<Hash256, Vec<u8>>)
        requires
            old(votes)@ == Map::<Hash256, Vec<u8>>::empty(),
        ensures
            final(votes)@ == old(self).votes@,
            final(self).validators == old(self).validators,
            final(self).scheme == old(self).scheme,
            final(self).kind == old(self).kind,
            final(self).height == old(self).height,
            final(self).view == old(self).view,
            final(self).block_id == old(self).block_id,
    {
        let mut taken: OrderedMap<Hash256, Vec<u8>> = OrderedMap::new();
        std::mem::swap(&mut taken, votes);
        proof {
            lemma_stake_of_none(self.validators@, taken@.dom());
        }
        let mut emptied = VoteCollector {
            validators: self.validators,
            scheme: self.scheme.clone(),
            kind: self.kind,
            height: self.height,
            view: self.view,
            block_id: self.block_id,
            votes: taken,
            signed_stake: 0,
        };
        std::mem::swap(&mut emptied, self);
        *votes = emptied.votes;
    }

    /// Combines the gathered signatures once their stake suffices.
    fn certificate_if_ready(&self) -> (result: Result<Option<QuorumCertificate>, ConsensusError>)
        ensures
            certificate_result(result) == assembled(
                self@,
                sorted_keys(self@.votes.dom()),
                self.scheme_used(),
            ),
            result is Ok,
            result.unwrap() is Some <==> has_quorum(self@),
            result matches Ok(Some(certificate)) ==> certifies(
                certificate@,
                self@,
                self.scheme_used(),
            ),
    {
        proof {
            use_type_invariant(self);
        }
        let required: u128 = threshold(
            self.validators.total_stake(),
            self.kind.required_percent(),
        );
        let signers = self.votes.keys();
        proof {
            assert(self.votes@.dom() =~= self@.votes.dom());
            assert(lists_voters(self@.votes, signers@));
        }
        if self.signed_stake < required {
            return Ok(None);
        }
        let mut signatures: Vec<Vec<u8>> = Vec::new();
        let mut index: usize = 0;
        assert(byte_strings(signatures@) =~= in_order(self@.votes, signers@.take(0)));
        while index < signers.len()
            invariant
                index <= signers@.len(),
                lists_voters(self@.votes, signers@),
                self@.votes == signatures_of(self.votes@),
                byte_strings(signatures@) == in_order(self@.votes, signers@.take(index as int)),
            decreases signers@.len() - index,
        {
            let signer = signers[index];
            assert(signers@.contains(signer));
            match self.votes.get(&signer) {
                Some(signature) => {
                    let ghost before = byte_strings(signatures@);
                    let copy = copy_bytes(signature);
                    signatures.push(copy);
                    proof {
                        assert(byte_strings(signatures@) =~= before.push(signature@));
                        assert(signers@.take(index + 1) =~= signers@.take(index as int).push(
                            signer,
                        ));
                        assert(in_order(self@.votes, signers@.take(index + 1)) =~= in_order(
                            self@.votes,
                            signers@.take(index as int),
                        ).push(self@.votes[signer]));
                    }
                },
                None => {
                    assert(false);
                },
            }
            index += 1;
        }
        assert(signers@.take(index as int) =~= signers@);
        proof {
            lemma_votes_verify_in_order(self@, signers@, self.scheme_used());
            lemma_quorum_has_signers(self@, signers@);
            assert(signer_keys(self@.table, signers@).len() == signers@.len());
        }
        match self.scheme.aggregate(&signatures) {
            Err(error) => Err(ConsensusError::Crypto(error)),
            Ok(aggregate_signature) => {
                let certificate = QuorumCertificate {
                    kind: self.kind,
                    height: self.height,
                    view: self.view,
                    block_id: self.block_id,
                    signers,
                    signed_stake: self.signed_stake,
                    aggregate_signature,
                };
                proof {
                    law_collected_certificate_is_well_formed(self@, signers@, self.scheme_used());
                }
                Ok(Some(certificate))
            },
        }
    }
}

/// A set without validators has no stake.
pub proof fn lemma_stake_of_none(table: Seq<ValidatorModel>, ids: Set<Hash256>)
    requires
        ids =~= Set::<Hash256>::empty(),
    ensures
        stake_of(table, ids) == 0,
    decreases table.len(),
{
    if table.len() > 0 {
        lemma_stake_of_none(table.drop_last(), ids);
    }
}

/// A validator that joins a set adds its stake.
pub proof fn lemma_stake_of_insert(table: Seq<ValidatorModel>, ids: Set<Hash256>, id: Hash256)
    requires
        crate::consensus::validators::ids_ascend(table),
        member(table, id) is Some,
        !ids.contains(id),
    ensures
        stake_of(table, ids.insert(id)) == stake_of(table, ids) + member(table, id).unwrap().stake,
{
    let i = choose|i: int| crate::consensus::validators::is_at(table, id, i);
    lemma_stake_of_insert_at(table, ids, i);
    crate::consensus::validators::lemma_member_at(table, i);
}

proof fn lemma_stake_of_insert_at(table: Seq<ValidatorModel>, ids: Set<Hash256>, i: int)
    requires
        crate::consensus::validators::ids_ascend(table),
        0 <= i < table.len(),
        !ids.contains(table[i].id),
    ensures
        stake_of(table, ids.insert(table[i].id)) == stake_of(table, ids) + table[i].stake,
    decreases table.len(),
{
    let id = table[i].id;
    let last = table.len() - 1;
    let shorter = table.drop_last();
    if i == last {
        lemma_stake_of_absent(shorter, ids, id);
    } else {
        assert(shorter[i] == table[i]);
        lemma_stake_of_insert_at(shorter, ids, i);
        assert(table[i].id.precedes(table[last].id));
        Hash256::precedes_irreflexive(id);
    }
}

proof fn lemma_stake_of_absent(table: Seq<ValidatorModel>, ids: Set<Hash256>, id: Hash256)
    requires
        forall|i: int| 0 <= i < table.len() ==> (#[trigger] table[i]).id.precedes(id),
    ensures
        stake_of(table, ids.insert(id)) == stake_of(table, ids),
    decreases table.len(),
{
    if table.len() > 0 {
        let shorter = table.drop_last();
        assert forall|i: int| 0 <= i < shorter.len() implies (
        #[trigger] shorter[i]).id.precedes(id) by {
            assert(shorter[i] == table[i]);
        }
        lemma_stake_of_absent(shorter, ids, id);
        assert(table[table.len() - 1].id.precedes(id));
        Hash256::precedes_irreflexive(id);
    }
}

/// The tally of ascending, known signers is the stake of their set.
pub proof fn lemma_tally_is_stake(table: Seq<ValidatorModel>, signers: Seq<Hash256>)
    requires
        valid_table(table),
        strictly_sorted(signers),
        forall|i: int| 0 <= i < signers.len() ==> member(table, #[trigger] signers[i]) is Some,
    ensures
        tally(table, signers) == Ok::<nat, ConsensusError>(stake_of(table, signers.to_set())),
    decreases signers.len(),
{
    if signers.len() == 0 {
        assert(signers.to_set() =~= Set::<Hash256>::empty());
        lemma_stake_of_none(table, signers.to_set());
    } else {
        let shorter = signers.drop_last();
        let last = signers.last();
        assert forall|i: int| 0 <= i < shorter.len() implies member(
            table,
            #[trigger] shorter[i],
        ) is Some by {
            assert(shorter[i] == signers[i]);
        }
        assert forall|i: int, j: int| #![trigger shorter[i], shorter[j]]
            0 <= i < j < shorter.len() implies shorter[i].precedes(shorter[j]) by {
            assert(signers[i].precedes(signers[j]));
        }
        lemma_tally_is_stake(table, shorter);
        if shorter.contains(last) {
            let k = choose|k: int| 0 <= k < shorter.len() && shorter[k] == last;
            assert(signers[k].precedes(signers[signers.len() - 1]));
            Hash256::precedes_irreflexive(last);
        }
        assert forall|id: Hash256| signers.to_set().contains(id) <==> shorter.to_set().insert(
            last,
        ).contains(id) by {
            if signers.contains(id) && id != last {
                let k = choose|k: int| 0 <= k < signers.len() && signers[k] == id;
                assert(shorter[k] == id);
            }
            if shorter.contains(id) {
                let k = choose|k: int| 0 <= k < shorter.len() && shorter[k] == id;
                assert(signers[k] == id);
            }
            assert(signers[signers.len() - 1] == last);
        }
        assert(signers.to_set() =~= shorter.to_set().insert(last));
        lemma_stake_of_insert(table, shorter.to_set(), last);
        crate::consensus::validators::lemma_stake_at_most_total(table, signers.to_set());
    }
}

/// An accepted tally names known signers only.
pub proof fn lemma_tally_known(table: Seq<ValidatorModel>, signers: Seq<Hash256>)
    requires
        tally(table, signers) is Ok,
    ensures
        forall|i: int| 0 <= i < signers.len() ==> member(table, #[trigger] signers[i]) is Some,
    decreases signers.len(),
{
    if signers.len() > 0 {
        lemma_tally_known(table, signers.drop_last());
        assert forall|i: int| 0 <= i < signers.len() implies member(
            table,
            #[trigger] signers[i],
        ) is Some by {
            if i < signers.len() - 1 {
                assert(signers.drop_last()[i] == signers[i]);
            }
        }
    }
}

/// An accepted certificate is backed by exactly the stake it states, which
/// reaches the threshold of its kind.
pub proof fn law_accepted_certificate_has_quorum<S: AggregateSignatureScheme>(
    certificate: CertificateModel,
    table: Seq<ValidatorModel>,
    scheme: S,
)
    requires
        valid_table(table),
        certificate_check(certificate, table, scheme) is Ok,
    ensures
        stake_of(table, certificate.signers.to_set()) == certificate.signed_stake,
        certificate.signed_stake >= threshold_of(total_of(table), percent_of(certificate.kind)),
{
    lemma_tally_known(table, certificate.signers);
    lemma_tally_is_stake(table, certificate.signers);
}

/// Two accepted certificates have an honest signer in common, where less than
/// 20% of the stake is Byzantine.
pub proof fn law_accepted_certificates_share_an_honest_signer<S: AggregateSignatureScheme>(
    left: CertificateModel,
    right: CertificateModel,
    table: Seq<ValidatorModel>,
    scheme: S,
    byzantine: Set<Hash256>,
)
    requires
        valid_table(table),
        total_of(table) * 80 <= u128::MAX,
        certificate_check(left, table, scheme) is Ok,
        certificate_check(right, table, scheme) is Ok,
        crate::consensus::validators::fault_budget(
            total_of(table),
            stake_of(table, byzantine),
            0,
        ) is Ok,
    ensures
        exists|id: Hash256| #[trigger]
            left.signers.contains(id) && right.signers.contains(id) && !byzantine.contains(id),
{
    law_accepted_certificate_has_quorum(left, table, scheme);
    law_accepted_certificate_has_quorum(right, table, scheme);
    crate::consensus::validators::law_fallback_quorums_share_an_honest_validator(
        table,
        left.signers.to_set(),
        right.signers.to_set(),
        byzantine,
    );
    let i = choose|i: int|
        0 <= i < table.len() && left.signers.to_set().contains((#[trigger] table[i]).id)
            && right.signers.to_set().contains(table[i].id) && !byzantine.contains(table[i].id);
    assert(left.signers.contains(table[i].id));
}

/// The counted votes verify in the order of their signers.
proof fn lemma_votes_verify_in_order<S: AggregateSignatureScheme>(
    state: CollectorModel,
    signers: Seq<Hash256>,
    scheme: S,
)
    requires
        votes_verify(state, scheme),
        lists_voters(state.votes, signers),
    ensures
        each_verifies(
            &scheme,
            signer_keys(state.table, signers),
            vote_bytes(state.height, state.view, state.block_id, phase_of(state.kind)),
            in_order(state.votes, signers),
        ),
        forall|id: Hash256| #[trigger]
            state.votes.contains_key(id) ==> member(state.table, id) is Some,
{
    let keys = signer_keys(state.table, signers);
    let message = vote_bytes(state.height, state.view, state.block_id, phase_of(state.kind));
    let signatures = in_order(state.votes, signers);
    assert forall|i: int| 0 <= i < keys.len() implies scheme.verification(
        #[trigger] keys[i],
        message,
        signatures[i],
    ) is Ok by {
        assert(signers.contains(signers[i]));
        assert(state.votes.contains_key(signers[i]));
    }
}

/// A collected certificate passes every check but the aggregate signature's
/// own: its signers are known and ascend, and its stake is exact and suffices.
pub proof fn law_collected_certificate_is_well_formed<S: AggregateSignatureScheme>(
    state: CollectorModel,
    signers: Seq<Hash256>,
    scheme: S,
)
    requires
        valid_table(state.table),
        forall|id: Hash256| #[trigger]
            state.votes.contains_key(id) ==> member(state.table, id) is Some,
        lists_voters(state.votes, signers),
        assembled(state, signers, scheme) matches Ok(Some(_)),
    ensures
        signers.len() > 0,
        ({
            let certificate = assembled(state, signers, scheme).unwrap().unwrap();
            certificate_check(certificate, state.table, scheme) == match scheme.aggregate_verification(
                signer_keys(state.table, signers),
                vote_bytes(state.height, state.view, state.block_id, phase_of(state.kind)),
                certificate.aggregate_signature,
            ) {
                Ok(()) => Ok::<(), ConsensusError>(()),
                Err(error) => Err(ConsensusError::Crypto(error)),
            }
        }),
{
    assert forall|i: int| 0 <= i < signers.len() implies member(
        state.table,
        #[trigger] signers[i],
    ) is Some by {
        assert(signers.contains(signers[i]));
        assert(state.votes.contains_key(signers[i]));
    }
    lemma_tally_is_stake(state.table, signers);
    assert(signers.to_set() =~= state.votes.dom());
    let stake = stake_of(state.table, state.votes.dom());
    crate::consensus::validators::lemma_stake_at_most_total(state.table, state.votes.dom());
    lemma_quorum_has_signers(state, signers);
}

/// Without votes there is no quorum.
proof fn lemma_quorum_has_signers(state: CollectorModel, signers: Seq<Hash256>)
    requires
        valid_table(state.table),
        lists_voters(state.votes, signers),
        has_quorum(state),
    ensures
        signers.len() > 0,
{
    if signers.len() == 0 {
        assert(state.votes.dom() =~= Set::<Hash256>::empty()) by {
            assert forall|id: Hash256| !state.votes.contains_key(id) by {
                assert(!signers.contains(id));
            }
        }
        lemma_stake_of_none(state.table, state.votes.dom());
        assert(total_of(state.table) > 0) by {
            let last = state.table.len() - 1;
            assert(state.table[last].stake > 0);
        }
        let total = total_of(state.table);
        let percent = percent_of(state.kind);
        assert(total * percent >= 60) by (nonlinear_arith)
            requires
                total >= 1,
                percent >= 60,
        ;
        assert(false);
    }
}

/// The stake of a quorum is at least the required share of all stake, and any such
/// stake makes a quorum, as long as the product stays in the integer range.
pub proof fn law_quorum_is_a_share_of_stake(state: CollectorModel)
    requires
        total_of(state.table) * percent_of(state.kind) <= u128::MAX,
    ensures
        has_quorum(state) <==> 100 * stake_of(state.table, state.votes.dom()) >= percent_of(
            state.kind,
        ) * total_of(state.table),
{
    let total = total_of(state.table);
    let percent = percent_of(state.kind);
    assert(total * percent == percent * total) by (nonlinear_arith);
}

} // verus!
