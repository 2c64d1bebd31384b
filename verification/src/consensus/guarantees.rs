//! What votes, certificates, leaders and penalties are for.

use std::sync::Arc;

use vstd::prelude::*;

use crate::bytes::{
    be64, lemma_be64_injective, lemma_big_endian_len, lemma_concat_injective, text_bytes,
};
use crate::consensus::certificates::{
    assembled, certificate_check, certificate_result, certifies, signer_keys, tally, vote_refusal,
    CertificateKind, CertificateModel, CollectorModel, QuorumCertificate,
};
use crate::consensus::errors::ConsensusError;
use crate::consensus::proposals::{
    block_bytes, block_id_of, fee_bytes, fee_commitment_of, joined_ids, lemma_joined_ids_injective,
    proposal_bytes, proposal_check, proposal_result, Proposal, ProposalModel, SignedProposal,
    SignedProposalModel,
};
use crate::consensus::replica::{
    advance_step, commit_step, finalize_step, key_check, optional_vote_result, order_step,
    snapshot_consistent, timeout_step, Replica, ReplicaIdentity, ReplicaLock, ReplicaSnapshot,
    SafetyState, VoteSlot,
};
use crate::consensus::validators::{
    admission, by_identity, fault_budget, formed_from, ids_ascend, is_at, leader_of,
    lemma_member_at, member, stake_of, total_of, valid_table, Validator, ValidatorModel,
    ValidatorSet,
};
use crate::consensus::votes::{
    evidence_bytes, evidence_id, judgement, phase_tag, signed_vote, vote_bytes, vote_result,
    EquivocationEvidence, SlashingDirective, SlashingPolicy, Vote, VoteModel, VotePhase,
};
use crate::crypto::{AggregateSignatureScheme, CryptoError};
use crate::ordered::SortKey;
use crate::types::{hash_of, zero_hash, Hash256};

verus! {

/// A slashed validator loses the least whole stake that is not below the configured
/// share of its stake: `slash_stake` ten-thousandths cover `basis_points` of the
/// stake, and one less would not. At 10,000 basis points it loses everything.
pub proof fn law_slash_is_the_least_covering_share<S: AggregateSignatureScheme>(
    first: VoteModel,
    second: VoteModel,
    basis_points: u16,
    table: Seq<ValidatorModel>,
    scheme: S,
    directive: SlashingDirective,
    i: int,
)
    requires
        ids_ascend(table),
        1 <= basis_points <= 10_000,
        judgement(first, second, basis_points, table, scheme) == Ok::<
            SlashingDirective,
            ConsensusError,
        >(directive),
        0 <= i < table.len(),
        table[i].id == first.validator,
    ensures
        directive.validator == first.validator,
        directive.slash_stake * 10_000 >= table[i].stake * basis_points,
        (directive.slash_stake - 1) * 10_000 < table[i].stake * basis_points,
        directive.slash_stake <= table[i].stake,
        basis_points == 10_000 ==> directive.slash_stake == table[i].stake,
        table[i].stake > 0 ==> directive.slash_stake > 0,
{
    lemma_member_at(table, i);
    let stake = table[i].stake as int;
    let points = basis_points as int;
    assert(0 <= stake * points <= stake * 10_000) by (nonlinear_arith)
        requires
            0 <= stake,
            0 <= points <= 10_000,
    ;
    assert(stake > 0 ==> stake * points > 0) by (nonlinear_arith)
        requires
            points >= 1,
    ;
}

/// A harsher policy never slashes less for the same evidence.
pub proof fn law_slash_grows_with_the_penalty<S: AggregateSignatureScheme>(
    first: VoteModel,
    second: VoteModel,
    lenient: u16,
    harsh: u16,
    table: Seq<ValidatorModel>,
    scheme: S,
    less: SlashingDirective,
    more: SlashingDirective,
)
    requires
        ids_ascend(table),
        1 <= lenient <= harsh <= 10_000,
        judgement(first, second, lenient, table, scheme) == Ok::<SlashingDirective, ConsensusError>(
            less,
        ),
        judgement(first, second, harsh, table, scheme) == Ok::<SlashingDirective, ConsensusError>(
            more,
        ),
    ensures
        less.slash_stake <= more.slash_stake,
        less.evidence_id == more.evidence_id,
{
    let i = choose|i: int| crate::consensus::validators::is_at(table, first.validator, i);
    law_slash_is_the_least_covering_share(first, second, lenient, table, scheme, less, i);
    law_slash_is_the_least_covering_share(first, second, harsh, table, scheme, more, i);
    let stake = table[i].stake as int;
    assert(stake * lenient <= stake * harsh) by (nonlinear_arith)
        requires
            0 <= stake,
            lenient <= harsh,
    ;
}

/// A directive comes for exactly the votes that prove a double vote: one listed
/// validator signed two different blocks in one height, view and phase.
pub proof fn law_only_proved_double_votes_are_slashed<S: AggregateSignatureScheme>(
    first: VoteModel,
    second: VoteModel,
    basis_points: u16,
    table: Seq<ValidatorModel>,
    scheme: S,
)
    requires
        ids_ascend(table),
    ensures
        judgement(first, second, basis_points, table, scheme) is Ok <==> {
            &&& first.validator == second.validator
            &&& first.height == second.height
            &&& first.view == second.view
            &&& first.phase == second.phase
            &&& first.block_id != second.block_id
            &&& exists|i: int|
                0 <= i < table.len() && (#[trigger] table[i]).id == first.validator
                    && scheme.verification(
                    table[i].public_key,
                    vote_bytes(first.height, first.view, first.block_id, first.phase),
                    first.signature,
                ) is Ok && scheme.verification(
                    table[i].public_key,
                    vote_bytes(second.height, second.view, second.block_id, second.phase),
                    second.signature,
                ) is Ok
        },
        judgement(first, second, basis_points, table, scheme) matches Ok(directive)
            ==> directive.evidence_id == evidence_id(first, second),
{
    if exists|i: int| 0 <= i < table.len() && (#[trigger] table[i]).id == first.validator {
        let i = choose|i: int| 0 <= i < table.len() && (#[trigger] table[i]).id == first.validator;
        lemma_member_at(table, i);
        assert forall|j: int|
            0 <= j < table.len() && (#[trigger] table[j]).id == first.validator implies table[j]
            == table[i] by {
            lemma_member_at(table, j);
        }
    }
    if member(table, first.validator) is Some {
        let i = choose|i: int|
            crate::consensus::validators::is_at(table, first.validator, i);
        assert(table[i].id == first.validator);
    }
}

/// Who leads goes round: the leader of a height and view stands at their sum modulo
/// the number of validators, so every validator leads exactly one of any run of
/// views as long as the table.
pub proof fn law_leadership_goes_round(
    table: Seq<ValidatorModel>,
    height: u64,
    start: u64,
    i: int,
)
    requires
        ids_ascend(table),
        table.len() > 0,
        start + table.len() <= u64::MAX,
        0 <= i < table.len(),
    ensures
        leader_of(table, height, start) == table[(height + start) % (table.len() as int)],
        exists|view: u64|
            start <= view < start + table.len() && #[trigger] leader_of(table, height, view)
                == table[i] && (height + view) % (table.len() as int) == i,
        forall|a: u64, b: u64|
            #![trigger leader_of(table, height, a), leader_of(table, height, b)]
            start <= a < b < start + table.len() ==> leader_of(table, height, a).id != leader_of(
                table,
                height,
                b,
            ).id,
{
    let count = table.len() as int;
    let base = height + start;
    let at = base % count;
    let step = if i >= at {
        i - at
    } else {
        i - at + count
    };
    vstd::arithmetic::div_mod::lemma_mod_bound(base, count);
    vstd::arithmetic::div_mod::lemma_fundamental_div_mod(base, count);
    let view = (start + step) as u64;
    let q = base / count;
    if i >= at {
        vstd::arithmetic::div_mod::lemma_fundamental_div_mod_converse(base + step, count, q, i);
    } else {
        assert(base + step == count * (q + 1) + i) by (nonlinear_arith)
            requires
                base == count * q + at,
                step == i - at + count,
        ;
        vstd::arithmetic::div_mod::lemma_fundamental_div_mod_converse(base + step, count, q + 1, i);
    }
    assert((height + view) % count == i);
    assert(leader_of(table, height, view) == table[i]);
    assert forall|a: u64, b: u64|
        #![trigger leader_of(table, height, a), leader_of(table, height, b)]
        start <= a < b < start + table.len() implies leader_of(table, height, a).id != leader_of(
        table,
        height,
        b,
    ).id by {
        let x = (height + a) % count;
        let y = (height + b) % count;
        lemma_within_a_lap(height + a, height + b, count);
        Hash256::precedes_irreflexive(table[x].id);
        if x < y {
            assert(table[x].id.precedes(table[y].id));
        } else {
            assert(table[y].id.precedes(table[x].id));
        }
    }
}

/// Numbers less than a lap apart leave different remainders.
proof fn lemma_within_a_lap(x: int, y: int, count: int)
    requires
        0 <= x < y < x + count,
    ensures
        x % count != y % count,
        0 <= x % count < count,
        0 <= y % count < count,
{
    vstd::arithmetic::div_mod::lemma_mod_bound(x, count);
    vstd::arithmetic::div_mod::lemma_mod_bound(y, count);
    vstd::arithmetic::div_mod::lemma_fundamental_div_mod(x, count);
    vstd::arithmetic::div_mod::lemma_fundamental_div_mod(y, count);
    if x % count == y % count {
        let d = y / count - x / count;
        assert(y - x == count * d) by (nonlinear_arith)
            requires
                x == count * (x / count) + x % count,
                y == count * (y / count) + y % count,
                x % count == y % count,
                d == y / count - x / count,
        ;
        assert(d >= 1 ==> count * d >= count) by (nonlinear_arith)
            requires
                count > 0,
        ;
        assert(d <= 0 ==> count * d <= 0) by (nonlinear_arith)
            requires
                count > 0,
        ;
    }
}

/// Less than a fifth of the stake may be Byzantine and at most a fifth offline, and
/// both together at most all of it; any other split is refused.
pub proof fn law_fault_budget_is_a_fifth_each(total: nat, byzantine: nat, offline: nat)
    ensures
        fault_budget(total, byzantine, offline) is Ok <==> 100 * byzantine < 20 * total && 100
            * offline <= 20 * total && byzantine + offline <= total,
        fault_budget(total, byzantine, offline) == Err::<(), ConsensusError>(
            ConsensusError::ByzantineBudgetExceeded,
        ) <==> 100 * byzantine >= 20 * total,
{
}

/// A certificate that is accepted carries the stake of its kind: at least four
/// fifths of all stake for a fast one, at least three fifths for any other.
pub proof fn law_accepted_certificate_carries_its_share<S: AggregateSignatureScheme>(
    certificate: CertificateModel,
    table: Seq<ValidatorModel>,
    scheme: S,
)
    requires
        valid_table(table),
        total_of(table) * 80 <= u128::MAX,
        certificate_check(certificate, table, scheme) is Ok,
    ensures
        stake_of(table, certificate.signers.to_set()) == certificate.signed_stake,
        certificate.kind == CertificateKind::Fast ==> 100 * certificate.signed_stake >= 80
            * total_of(table),
        100 * certificate.signed_stake >= 60 * total_of(table),
        certificate.signers.len() > 0,
        forall|i: int, j: int|
            0 <= i < j < certificate.signers.len() ==> (
            #[trigger] certificate.signers[i]).precedes(#[trigger] certificate.signers[j]),
        forall|i: int|
            0 <= i < certificate.signers.len() ==> exists|k: int|
                0 <= k < table.len() && (#[trigger] table[k]).id
                    == #[trigger] certificate.signers[i],
{
    crate::consensus::certificates::law_accepted_certificate_has_quorum(certificate, table, scheme);
    let total = total_of(table);
    assert(total * 60 <= u128::MAX);
    assert forall|i: int| 0 <= i < certificate.signers.len() implies exists|k: int|
        0 <= k < table.len() && (#[trigger] table[k]).id == #[trigger] certificate.signers[i] by {
        lemma_tallied_are_listed(table, certificate.signers, i);
    }
}

proof fn lemma_tallied_are_listed(table: Seq<ValidatorModel>, signers: Seq<Hash256>, i: int)
    requires
        tally(table, signers) is Ok,
        0 <= i < signers.len(),
    ensures
        exists|k: int| 0 <= k < table.len() && (#[trigger] table[k]).id == signers[i],
    decreases signers.len(),
{
    if i == signers.len() - 1 {
        assert(member(table, signers[i]) is Some);
        let k = choose|k: int| crate::consensus::validators::is_at(table, signers[i], k);
        assert(table[k].id == signers[i]);
    } else {
        lemma_tallied_are_listed(table, signers.drop_last(), i);
    }
}

/// The phase of the votes behind a certificate: a fast and a prepare certificate
/// count the same first-round votes.
pub open spec fn voted_in(kind: CertificateKind) -> VotePhase {
    if kind == CertificateKind::Commit {
        VotePhase::Commit
    } else if kind == CertificateKind::Timeout {
        VotePhase::Timeout
    } else {
        VotePhase::Order
    }
}

/// What makes a certificate acceptable, apart from its signers and their stake: the
/// aggregate verifies, under the keys of the signers in order, for the vote that the
/// certificate stands for.
pub proof fn law_accepted_certificate_is_signed<S: AggregateSignatureScheme>(
    certificate: CertificateModel,
    table: Seq<ValidatorModel>,
    scheme: S,
)
    requires
        valid_table(table),
        certificate_check(certificate, table, scheme) is Ok,
    ensures
        exists|keys: Seq<Seq<u8>>|
            {
                &&& keys.len() == certificate.signers.len()
                &&& forall|i: int, k: int|
                    0 <= i < keys.len() && 0 <= k < table.len() && (#[trigger] table[k]).id
                        == certificate.signers[i] ==> #[trigger] keys[i] == table[k].public_key
                &&& #[trigger] scheme.aggregate_verification(
                    keys,
                    vote_bytes(
                        certificate.height,
                        certificate.view,
                        certificate.block_id,
                        voted_in(certificate.kind),
                    ),
                    certificate.aggregate_signature,
                ) is Ok
            },
{
    let keys = signer_keys(table, certificate.signers);
    assert forall|i: int, k: int|
        0 <= i < keys.len() && 0 <= k < table.len() && (#[trigger] table[k]).id
            == certificate.signers[i] implies #[trigger] keys[i] == table[k].public_key by {
        lemma_member_at(table, k);
    }
    assert(keys.len() == certificate.signers.len());
}

/// Stake adds up: a validator alone has its own stake, sets share what both hold,
/// and all validators together have the total.
pub proof fn law_stake_adds_up(
    table: Seq<ValidatorModel>,
    left: Set<Hash256>,
    right: Set<Hash256>,
    i: int,
)
    requires
        ids_ascend(table),
        0 <= i < table.len(),
    ensures
        stake_of(table, left.union(right)) + stake_of(table, left.intersect(right)) == stake_of(
            table,
            left,
        ) + stake_of(table, right),
        stake_of(table, set![table[i].id]) == table[i].stake,
        stake_of(table, Set::empty()) == 0,
        (forall|k: int| 0 <= k < table.len() ==> left.contains((#[trigger] table[k]).id))
            ==> stake_of(table, left) == total_of(table),
    decreases table.len(),
{
    lemma_stake_shared(table, left, right);
    lemma_stake_single(table, i);
    crate::consensus::certificates::lemma_stake_of_none(table, Set::empty());
    if forall|k: int| 0 <= k < table.len() ==> left.contains((#[trigger] table[k]).id) {
        lemma_stake_all(table, left);
    }
}

proof fn lemma_stake_shared(table: Seq<ValidatorModel>, left: Set<Hash256>, right: Set<Hash256>)
    ensures
        stake_of(table, left.union(right)) + stake_of(table, left.intersect(right)) == stake_of(
            table,
            left,
        ) + stake_of(table, right),
    decreases table.len(),
{
    if table.len() > 0 {
        lemma_stake_shared(table.drop_last(), left, right);
    }
}

proof fn lemma_stake_single(table: Seq<ValidatorModel>, i: int)
    requires
        ids_ascend(table),
        0 <= i < table.len(),
    ensures
        stake_of(table, set![table[i].id]) == table[i].stake,
{
    let id = table[i].id;
    lemma_member_at(table, i);
    crate::consensus::certificates::lemma_stake_of_insert(table, Set::empty(), id);
    crate::consensus::certificates::lemma_stake_of_none(table, Set::empty());
    assert(Set::<Hash256>::empty().insert(id) =~= set![id]);
}

proof fn lemma_stake_all(table: Seq<ValidatorModel>, ids: Set<Hash256>)
    requires
        forall|k: int| 0 <= k < table.len() ==> ids.contains((#[trigger] table[k]).id),
    ensures
        stake_of(table, ids) == total_of(table),
    decreases table.len(),
{
    if table.len() > 0 {
        let shorter = table.drop_last();
        assert forall|k: int| 0 <= k < shorter.len() implies ids.contains(
            (#[trigger] shorter[k]).id,
        ) by {
            assert(shorter[k] == table[k]);
        }
        lemma_stake_all(shorter, ids);
        assert(ids.contains(table[table.len() - 1].id));
    }
}

/// A collector counts a vote exactly where it is a listed validator's, for the round
/// and block that is collected, in the phase that the certificate stands for, with a
/// signature that verifies, and not the second of two different ones.
pub proof fn law_collector_counts_matching_votes_only<S: AggregateSignatureScheme>(
    state: CollectorModel,
    vote: VoteModel,
    scheme: S,
)
    requires
        ids_ascend(state.table),
    ensures
        vote_refusal(state, vote, scheme) is None <==> {
            &&& vote.height == state.height
            &&& vote.view == state.view
            &&& vote.block_id == state.block_id
            &&& vote.phase == voted_in(state.kind)
            &&& exists|i: int|
                0 <= i < state.table.len() && (#[trigger] state.table[i]).id == vote.validator
                    && scheme.verification(
                    state.table[i].public_key,
                    vote_bytes(vote.height, vote.view, vote.block_id, vote.phase),
                    vote.signature,
                ) is Ok
            &&& state.votes.contains_key(vote.validator) ==> state.votes[vote.validator]
                == vote.signature
        },
{
    let table = state.table;
    if exists|i: int| 0 <= i < table.len() && (#[trigger] table[i]).id == vote.validator {
        let i = choose|i: int| 0 <= i < table.len() && (#[trigger] table[i]).id == vote.validator;
        lemma_member_at(table, i);
        assert forall|j: int|
            0 <= j < table.len() && (#[trigger] table[j]).id == vote.validator implies table[j]
            == table[i] by {
            lemma_member_at(table, j);
        }
    }
    if member(table, vote.validator) is Some {
        let i = choose|i: int| crate::consensus::validators::is_at(table, vote.validator, i);
        assert(table[i].id == vote.validator);
    }
}

/// A certificate that a collector forms is of what was collected: its kind, round and
/// block, with the stake of all that voted. Four fifths of all stake form a fast one,
/// three fifths any other, and less forms none.
pub proof fn law_collected_certificate_names_what_was_collected<S: AggregateSignatureScheme>(
    state: CollectorModel,
    signers: Seq<Hash256>,
    scheme: S,
)
    requires
        total_of(state.table) * 80 <= u128::MAX,
    ensures
        ({
            let share: nat = if state.kind == CertificateKind::Fast {
                80
            } else {
                60
            };
            let stake = stake_of(state.table, state.votes.dom());
            match assembled(state, signers, scheme) {
                Ok(Some(certificate)) => {
                    &&& 100 * stake >= share * total_of(state.table)
                    &&& certificate.kind == state.kind
                    &&& certificate.height == state.height
                    &&& certificate.view == state.view
                    &&& certificate.block_id == state.block_id
                    &&& certificate.signers == signers
                    &&& certificate.signed_stake == stake as u128
                    &&& scheme.aggregation(signers.map_values(|id: Hash256| state.votes[id]))
                        == Ok::<Seq<u8>, crate::crypto::CryptoError>(
                        certificate.aggregate_signature,
                    )
                },
                Ok(None) => 100 * stake < share * total_of(state.table),
                Err(_) => 100 * stake >= share * total_of(state.table),
            }
        }),
{
    let total = total_of(state.table);
    assert(total * 60 <= u128::MAX);
}

/// Messages that proposers sign differ wherever the proposals differ in round, parent,
/// proposer, block or transactions.
pub proof fn law_proposal_message_is_binding(left: ProposalModel, right: ProposalModel)
    requires
        left.transaction_ids.len() <= u64::MAX,
        right.transaction_ids.len() <= u64::MAX,
        proposal_bytes(left) == proposal_bytes(right),
    ensures
        left.height == right.height,
        left.view == right.view,
        left.parent_id == right.parent_id,
        left.proposer == right.proposer,
        left.block_id == right.block_id,
        left.transaction_ids == right.transaction_ids,
{
    let domain = text_bytes("kestrel/consensus/proposal-signature/v1");
    let count = left.transaction_ids.len() as u64;
    let other_count = right.transaction_ids.len() as u64;
    lemma_big_endian_len(left.height as nat, 8);
    lemma_big_endian_len(right.height as nat, 8);
    lemma_big_endian_len(left.view as nat, 8);
    lemma_big_endian_len(right.view as nat, 8);
    lemma_big_endian_len(count as nat, 8);
    lemma_big_endian_len(other_count as nat, 8);
    let a1 = domain + be64(left.height);
    let a2 = a1 + be64(left.view);
    let a3 = a2 + left.parent_id@;
    let a4 = a3 + left.proposer@;
    let a5 = a4 + left.block_id@;
    let a6 = a5 + be64(count);
    let b1 = domain + be64(right.height);
    let b2 = b1 + be64(right.view);
    let b3 = b2 + right.parent_id@;
    let b4 = b3 + right.proposer@;
    let b5 = b4 + right.block_id@;
    let b6 = b5 + be64(other_count);
    lemma_concat_injective(
        a6,
        joined_ids(left.transaction_ids),
        b6,
        joined_ids(right.transaction_ids),
    );
    lemma_concat_injective(a5, be64(count), b5, be64(other_count));
    lemma_concat_injective(a4, left.block_id@, b4, right.block_id@);
    lemma_concat_injective(a3, left.proposer@, b3, right.proposer@);
    lemma_concat_injective(a2, left.parent_id@, b2, right.parent_id@);
    lemma_concat_injective(a1, be64(left.view), b1, be64(right.view));
    lemma_concat_injective(domain, be64(left.height), domain, be64(right.height));
    lemma_be64_injective(left.height, right.height);
    lemma_be64_injective(left.view, right.view);
    lemma_be64_injective(count, other_count);
    lemma_joined_ids_injective(left.transaction_ids, right.transaction_ids);
    assert(left.parent_id.bytes =~= right.parent_id.bytes);
    assert(left.proposer.bytes =~= right.proposer.bytes);
    assert(left.block_id.bytes =~= right.block_id.bytes);
}

/// A proposal is accepted exactly where the leader of its round signed it and its
/// block commits to what it carries.
pub proof fn law_accepted_proposal_is_the_leaders<S: AggregateSignatureScheme>(
    signed: SignedProposalModel,
    table: Seq<ValidatorModel>,
    scheme: S,
)
    requires
        table.len() > 0,
    ensures
        proposal_check(signed, table, scheme) is Ok <==> {
            let proposal = signed.proposal;
            let leader = table[(proposal.height + proposal.view) % (table.len() as int)];
            &&& proposal.proposer == leader.id
            &&& proposal.block_id == block_id_of(
                proposal.height,
                proposal.parent_id,
                proposal.transaction_ids,
                proposal.fee_commitment,
            )
            &&& scheme.verification(
                leader.public_key,
                proposal_bytes(proposal),
                signed.signature,
            ) is Ok
        },
{
}

/// A replica votes for a proposal exactly where it is that of the round's leader on
/// the replica's chain, commits to what it carries, does not break the replica's
/// lock, and neither a timeout vote nor a vote for another block stands in the round;
/// the vote is its own, in its round, for the proposed block.
pub proof fn law_replica_votes_for_the_proposed_block<S: AggregateSignatureScheme>(
    state: SafetyState,
    identity: ReplicaIdentity<S>,
    proposal: ProposalModel,
)
    requires
        identity.table.len() > 0,
    ensures
        ({
            let order = VoteSlot {
                height: state.height,
                view: state.view,
                phase: VotePhase::Order,
            };
            let timeout = VoteSlot {
                height: state.height,
                view: state.view,
                phase: VotePhase::Timeout,
            };
            let (next, result) = order_step(state, identity, proposal);
            let leader = identity.table[(state.height + state.view) % (
            identity.table.len() as int)];
            &&& result matches Ok(vote) ==> {
                &&& vote.validator == identity.id
                &&& vote.height == state.height == proposal.height
                &&& vote.view == state.view == proposal.view
                &&& vote.block_id == proposal.block_id
                &&& vote.phase == VotePhase::Order
                &&& identity.scheme.signature(
                    identity.private_key,
                    vote_bytes(state.height, state.view, proposal.block_id, VotePhase::Order),
                ) == Ok::<Seq<u8>, crate::crypto::CryptoError>(vote.signature)
                &&& proposal.parent_id == state.parent_id
                &&& proposal.proposer == leader.id
                &&& proposal.block_id == block_id_of(
                    proposal.height,
                    proposal.parent_id,
                    proposal.transaction_ids,
                    proposal.fee_commitment,
                )
                &&& !state.votes.contains_key(timeout)
                &&& next == (SafetyState {
                    votes: state.votes.insert(order, proposal.block_id),
                    ..state
                })
            }
            &&& ({
                &&& proposal.height == state.height
                &&& proposal.view == state.view
                &&& proposal.parent_id == state.parent_id
                &&& proposal.proposer == leader.id
                &&& proposal.block_id == block_id_of(
                    proposal.height,
                    proposal.parent_id,
                    proposal.transaction_ids,
                    proposal.fee_commitment,
                )
                &&& state.lock is None || state.lock.unwrap().block_id == proposal.block_id
                &&& !state.votes.contains_key(timeout)
                &&& !state.votes.contains_key(order) || state.votes[order] == proposal.block_id
                &&& identity.scheme.signature(
                    identity.private_key,
                    vote_bytes(state.height, state.view, proposal.block_id, VotePhase::Order),
                ) is Ok
            }) ==> result is Ok
        }),
{
}

/// A replica votes to commit exactly the block that an accepted prepare certificate
/// of its round names, and is locked on that block from this vote on.
pub proof fn law_replica_commits_the_prepared_block<S: AggregateSignatureScheme>(
    state: SafetyState,
    identity: ReplicaIdentity<S>,
    prepare: CertificateModel,
)
    ensures
        ({
            let slot = VoteSlot {
                height: state.height,
                view: state.view,
                phase: VotePhase::Commit,
            };
            let (next, result) = commit_step(state, identity, prepare);
            &&& result matches Ok(vote) ==> {
                &&& certificate_check(prepare, identity.table, identity.scheme) is Ok
                &&& prepare.kind == CertificateKind::Prepare
                &&& prepare.height == state.height
                &&& prepare.view == state.view
                &&& state.lock matches Some(lock) ==> lock.height != prepare.height
                    || lock.block_id == prepare.block_id || lock.view < prepare.view
                &&& vote.validator == identity.id
                &&& vote.height == state.height
                &&& vote.view == state.view
                &&& vote.block_id == prepare.block_id
                &&& vote.phase == VotePhase::Commit
                &&& next == (SafetyState {
                    lock: Some(
                        ReplicaLock {
                            height: state.height,
                            view: state.view,
                            block_id: prepare.block_id,
                        },
                    ),
                    votes: state.votes.insert(slot, prepare.block_id),
                    ..state
                })
            }
            &&& ({
                &&& certificate_check(prepare, identity.table, identity.scheme) is Ok
                &&& prepare.kind == CertificateKind::Prepare
                &&& prepare.height == state.height
                &&& prepare.view == state.view
                &&& state.lock is None || state.lock.unwrap().block_id == prepare.block_id
                    || state.lock.unwrap().view < prepare.view
                &&& !state.votes.contains_key(slot) || state.votes[slot] == prepare.block_id
                &&& identity.scheme.signature(
                    identity.private_key,
                    vote_bytes(state.height, state.view, prepare.block_id, VotePhase::Commit),
                ) is Ok
            }) ==> result is Ok
        }),
{
}

/// A replica gives up on a view only where it has not voted for a block in it, with a
/// timeout vote for no block; a timeout certificate of its round moves it to the next
/// view of the same height and changes nothing else.
pub proof fn law_replica_times_out_and_moves_on<S: AggregateSignatureScheme>(
    state: SafetyState,
    identity: ReplicaIdentity<S>,
    timeout: CertificateModel,
)
    ensures
        ({
            let order = VoteSlot {
                height: state.height,
                view: state.view,
                phase: VotePhase::Order,
            };
            let slot = VoteSlot {
                height: state.height,
                view: state.view,
                phase: VotePhase::Timeout,
            };
            let (next, result) = timeout_step(state, identity);
            &&& result == Ok::<Option<VoteModel>, ConsensusError>(None)
                <==> state.votes.contains_key(order)
            &&& result matches Ok(Some(vote)) ==> {
                &&& vote.validator == identity.id
                &&& vote.height == state.height
                &&& vote.view == state.view
                &&& vote.block_id == zero_hash()
                &&& vote.phase == VotePhase::Timeout
                &&& next == (SafetyState {
                    votes: state.votes.insert(slot, zero_hash()),
                    ..state
                })
            }
        }),
        ({
            let (next, result) = advance_step(state, identity, timeout);
            &&& result is Ok <==> {
                &&& certificate_check(timeout, identity.table, identity.scheme) is Ok
                &&& timeout.kind == CertificateKind::Timeout
                &&& timeout.height == state.height
                &&& timeout.view == state.view
                &&& state.view < u64::MAX
            }
            &&& result is Ok ==> next.view == state.view + 1 && next == (SafetyState {
                view: next.view,
                ..state
            })
            &&& result is Err ==> next == state
        }),
{
}

/// An accepted fast or commit certificate of a replica's height finalizes exactly the
/// block that it names: the replica goes on at the next height, in view 0, on that
/// block and without a lock.
pub proof fn law_certificate_finalizes_its_block<S: AggregateSignatureScheme>(
    state: SafetyState,
    identity: ReplicaIdentity<S>,
    certificate: CertificateModel,
)
    requires
        !state.finalized.contains_key(certificate.height),
        state.height < u64::MAX,
    ensures
        ({
            let (next, result) = finalize_step(state, identity, certificate);
            &&& result is Ok <==> {
                &&& certificate_check(certificate, identity.table, identity.scheme) is Ok
                &&& certificate.kind == CertificateKind::Fast || certificate.kind
                    == CertificateKind::Commit
                &&& certificate.height == state.height
            }
            &&& result matches Ok(block) ==> {
                &&& block == certificate.block_id
                &&& next.height == state.height + 1
                &&& next.view == 0
                &&& next.parent_id == certificate.block_id
                &&& next.lock is None
                &&& next.votes == state.votes
                &&& next.finalized == state.finalized.insert(
                    certificate.height,
                    certificate.block_id,
                )
            }
            &&& result is Err ==> next == state
        }),
{
}

/// A vote that is signed is the vote that was asked for, and its signature is that of
/// the vote's own message.
pub proof fn law_signed_vote_is_the_one_asked_for<S: AggregateSignatureScheme>(
    validator: Hash256,
    private_key: Seq<u8>,
    height: u64,
    view: u64,
    block_id: Hash256,
    phase: VotePhase,
    scheme: S,
)
    ensures
        signed_vote(validator, private_key, height, view, block_id, phase, scheme) matches Ok(vote)
            ==> {
            &&& vote.validator == validator
            &&& vote.height == height
            &&& vote.view == view
            &&& vote.block_id == block_id
            &&& vote.phase == phase
            &&& scheme.signature(private_key, vote_bytes(height, view, block_id, phase)) == Ok::<
                Seq<u8>,
                crate::crypto::CryptoError,
            >(vote.signature)
        },
        signed_vote(validator, private_key, height, view, block_id, phase, scheme) is Ok
            <==> scheme.signature(private_key, vote_bytes(height, view, block_id, phase)) is Ok,
{
}

/// What identifies a piece of evidence covers all of it: whose votes they are, of which
/// round and phase, for which blocks, and their signatures.
pub proof fn law_evidence_identity_is_binding(
    low: VoteModel,
    high: VoteModel,
    other_low: VoteModel,
    other_high: VoteModel,
)
    requires
        evidence_bytes(low, high) == evidence_bytes(other_low, other_high),
        low.signature.len() <= u64::MAX,
        high.signature.len() <= u64::MAX,
        other_low.signature.len() <= u64::MAX,
        other_high.signature.len() <= u64::MAX,
    ensures
        low.validator == other_low.validator,
        low.height == other_low.height,
        low.view == other_low.view,
        low.phase == other_low.phase,
        low.block_id == other_low.block_id,
        low.signature == other_low.signature,
        high.block_id == other_high.block_id,
        high.signature == other_high.signature,
{
    let domain = text_bytes("kestrel/consensus/equivocation/v1");
    lemma_big_endian_len(low.height as nat, 8);
    lemma_big_endian_len(low.view as nat, 8);
    lemma_big_endian_len(other_low.height as nat, 8);
    lemma_big_endian_len(other_low.view as nat, 8);
    lemma_big_endian_len(low.signature.len(), 8);
    lemma_big_endian_len(high.signature.len(), 8);
    lemma_big_endian_len(other_low.signature.len(), 8);
    lemma_big_endian_len(other_high.signature.len(), 8);
    let a1 = domain + low.validator@;
    let a2 = a1 + be64(low.height);
    let a3 = a2 + be64(low.view);
    let a4 = a3 + seq![phase_tag(low.phase)];
    let a5 = a4 + low.block_id@;
    let a6 = a5 + be64(low.signature.len() as u64);
    let a_end = be64(high.signature.len() as u64) + high.signature;
    let a_rest = high.block_id@ + a_end;
    let b1 = domain + other_low.validator@;
    let b2 = b1 + be64(other_low.height);
    let b3 = b2 + be64(other_low.view);
    let b4 = b3 + seq![phase_tag(other_low.phase)];
    let b5 = b4 + other_low.block_id@;
    let b6 = b5 + be64(other_low.signature.len() as u64);
    let b_end = be64(other_high.signature.len() as u64) + other_high.signature;
    let b_rest = other_high.block_id@ + b_end;
    assert(evidence_bytes(low, high) =~= a6 + (low.signature + a_rest));
    assert(evidence_bytes(other_low, other_high) =~= b6 + (other_low.signature + b_rest));
    lemma_concat_injective(
        a6,
        low.signature + a_rest,
        b6,
        other_low.signature + b_rest,
    );
    lemma_concat_injective(
        a5,
        be64(low.signature.len() as u64),
        b5,
        be64(other_low.signature.len() as u64),
    );
    lemma_be64_injective(low.signature.len() as u64, other_low.signature.len() as u64);
    lemma_concat_injective(low.signature, a_rest, other_low.signature, b_rest);
    lemma_concat_injective(high.block_id@, a_end, other_high.block_id@, b_end);
    lemma_concat_injective(
        be64(high.signature.len() as u64),
        high.signature,
        be64(other_high.signature.len() as u64),
        other_high.signature,
    );
    lemma_concat_injective(a4, low.block_id@, b4, other_low.block_id@);
    let tag = seq![phase_tag(low.phase)];
    let other_tag = seq![phase_tag(other_low.phase)];
    lemma_concat_injective(a3, tag, b3, other_tag);
    assert(tag[0] == other_tag[0]);
    lemma_concat_injective(a2, be64(low.view), b2, be64(other_low.view));
    lemma_concat_injective(a1, be64(low.height), b1, be64(other_low.height));
    lemma_concat_injective(domain, low.validator@, domain, other_low.validator@);
    lemma_be64_injective(low.view, other_low.view);
    lemma_be64_injective(low.height, other_low.height);
    assert(low.validator.bytes =~= other_low.validator.bytes);
    assert(low.block_id.bytes =~= other_low.block_id.bytes);
    assert(high.block_id.bytes =~= other_high.block_id.bytes);
}

/// Validators form a set exactly where each has stake, an identity of its own and a proof
/// that it holds its key, and their stakes can be added up; the set's stake is that sum.
pub proof fn law_validators_prove_their_keys<S: AggregateSignatureScheme>(
    list: Seq<ValidatorModel>,
    scheme: S,
)
    ensures
        admission(list, scheme) matches Ok(sum) ==> sum == total_of(list),
        admission(list, scheme) is Ok <==> {
            &&& forall|i: int|
                0 <= i < list.len() ==> (#[trigger] list[i]).stake > 0
                    && scheme.possession_verification(
                    list[i].public_key,
                    list[i].proof_of_possession,
                ) is Ok
            &&& forall|i: int, j: int| #![trigger list[i], list[j]]
                0 <= i < j < list.len() ==> list[i].id != list[j].id
            &&& total_of(list) <= u128::MAX
        },
    decreases list.len(),
{
    if list.len() > 0 {
        let shorter = list.drop_last();
        let last = list.len() - 1;
        law_validators_prove_their_keys(shorter, scheme);
        assert forall|i: int| 0 <= i < last implies shorter[i] == #[trigger] list[i] by {}
        if member(shorter, list.last().id) is Some {
            let i = choose|i: int| is_at(shorter, list.last().id, i);
            assert(list[i].id == list[last].id);
        } else {
            assert forall|i: int| 0 <= i < last implies (#[trigger] list[i]).id != list[last].id by {
                assert(!is_at(shorter, list.last().id, i));
            }
        }
        if admission(list, scheme) is Ok {
            assert forall|i: int, j: int| #![trigger list[i], list[j]]
                0 <= i < j < list.len() implies list[i].id != list[j].id by {
                if j < last {
                    assert(shorter[i] == list[i] && shorter[j] == list[j]);
                }
            }
            assert forall|i: int| 0 <= i < list.len() implies (#[trigger] list[i]).stake > 0
                && scheme.possession_verification(
                list[i].public_key,
                list[i].proof_of_possession,
            ) is Ok by {
                if i < last {
                    assert(shorter[i] == list[i]);
                }
            }
        } else if (forall|i: int|
            0 <= i < list.len() ==> (#[trigger] list[i]).stake > 0
                && scheme.possession_verification(
                list[i].public_key,
                list[i].proof_of_possession,
            ) is Ok) && (forall|i: int, j: int| #![trigger list[i], list[j]]
            0 <= i < j < list.len() ==> list[i].id != list[j].id) && total_of(list) <= u128::MAX {
            assert forall|i: int| 0 <= i < shorter.len() implies (#[trigger] shorter[i]).stake > 0
                && scheme.possession_verification(
                shorter[i].public_key,
                shorter[i].proof_of_possession,
            ) is Ok by {
                assert(shorter[i] == list[i]);
            }
            assert forall|i: int, j: int| #![trigger shorter[i], shorter[j]]
                0 <= i < j < shorter.len() implies shorter[i].id != shorter[j].id by {
                assert(shorter[i] == list[i] && shorter[j] == list[j]);
            }
            assert(list[last].stake > 0);
        }
    }
}

/// A set that forms lists the given validators in order of identity, each as it was
/// given, and every one of them has proved that it holds its key.
pub proof fn law_formed_set_is_the_given_validators<S: AggregateSignatureScheme>(
    validators: Seq<ValidatorModel>,
    scheme: S,
    set: ValidatorSet,
    i: int,
)
    requires
        formed_from(validators, scheme, Ok(set)),
        0 <= i < set@.len(),
    ensures
        validators.len() >= 4,
        set@.len() == validators.len(),
        validators.contains(set@[i]),
        set@[i].stake > 0,
        scheme.possession_verification(set@[i].public_key, set@[i].proof_of_possession) is Ok,
        forall|j: int| i < j < set@.len() ==> set@[i].id.precedes((#[trigger] set@[j]).id),
{
    let order = choose|order: Seq<ValidatorModel>| #[trigger]
        by_identity(order, validators) && set@ == order && valid_table(set@) && admission(
            order,
            scheme,
        ) == Ok::<nat, ConsensusError>(total_of(set@));
    law_validators_prove_their_keys(order, scheme);
    order.to_multiset_ensures();
    validators.to_multiset_ensures();
    assert(order.to_multiset().count(order[i]) > 0);
    assert(order[i].stake > 0);
}

/// A replica runs exactly where it is listed and holds the private key behind the public
/// key that it is listed with.
pub proof fn law_replica_holds_its_listed_key<S: AggregateSignatureScheme>(
    identity: ReplicaIdentity<S>,
)
    ensures
        key_check(identity) is Ok <==> {
            &&& member(identity.table, identity.id) is Some
            &&& identity.scheme.derived_key(identity.private_key) == Ok::<Seq<u8>, CryptoError>(
                member(identity.table, identity.id).unwrap().public_key,
            )
        },
        member(identity.table, identity.id) is None ==> key_check(identity) == Err::<
            (),
            ConsensusError,
        >(ConsensusError::UnknownValidator(identity.id)),
{
}

/// The value of a result is the value of what it holds, or its error.
pub proof fn law_values_of_results(
    vote: Result<Vote, ConsensusError>,
    proposal: Result<SignedProposal, ConsensusError>,
    certificate: Result<Option<QuorumCertificate>, ConsensusError>,
    timeout: Result<Option<Vote>, ConsensusError>,
)
    ensures
        vote matches Ok(value) ==> vote_result(vote) == Ok::<VoteModel, ConsensusError>(value@),
        vote matches Err(error) ==> vote_result(vote) == Err::<VoteModel, ConsensusError>(error),
        proposal matches Ok(value) ==> proposal_result(proposal) == Ok::<
            SignedProposalModel,
            ConsensusError,
        >(value@),
        proposal matches Err(error) ==> proposal_result(proposal) == Err::<
            SignedProposalModel,
            ConsensusError,
        >(error),
        certificate matches Ok(Some(value)) ==> certificate_result(certificate) == Ok::<
            Option<CertificateModel>,
            ConsensusError,
        >(Some(value@)),
        certificate matches Ok(None) ==> certificate_result(certificate) == Ok::<
            Option<CertificateModel>,
            ConsensusError,
        >(None),
        certificate matches Err(error) ==> certificate_result(certificate) == Err::<
            Option<CertificateModel>,
            ConsensusError,
        >(error),
        timeout matches Ok(Some(value)) ==> optional_vote_result(timeout) == Ok::<
            Option<VoteModel>,
            ConsensusError,
        >(Some(value@)),
        timeout matches Ok(None) ==> optional_vote_result(timeout) == Ok::<
            Option<VoteModel>,
            ConsensusError,
        >(None),
        timeout matches Err(error) ==> optional_vote_result(timeout) == Err::<
            Option<VoteModel>,
            ConsensusError,
        >(error),
{
}

/// A certificate that a collector hands out is accepted wherever it is checked against
/// the same validators, unless its signatures cancel out; it names the voters in order
/// and their stake.
pub proof fn law_collected_certificate_is_accepted<S: AggregateSignatureScheme>(
    certificate: CertificateModel,
    state: CollectorModel,
    scheme: S,
    id: Hash256,
)
    requires
        certifies(certificate, state, scheme),
    ensures
        !scheme.is_neutral(certificate.aggregate_signature) ==> certificate_check(
            certificate,
            state.table,
            scheme,
        ) is Ok,
        certificate.signers.contains(id) <==> state.votes.contains_key(id),
        certificate.signed_stake == stake_of(state.table, state.votes.dom()),
        forall|i: int, j: int| #![trigger certificate.signers[i], certificate.signers[j]]
            0 <= i < j < certificate.signers.len() ==> certificate.signers[i].precedes(
                certificate.signers[j],
            ),
{
}

/// Quorums are the least stake that makes up four or three fifths of all stake.
pub proof fn law_quorums_are_shares_of_all_stake(
    set: &ValidatorSet,
    total: u128,
    fast: u128,
    fallback: u128,
)
    requires
        call_ensures(ValidatorSet::total_stake, (set,), total),
        call_ensures(ValidatorSet::fast_threshold, (set,), fast),
        call_ensures(ValidatorSet::fallback_threshold, (set,), fallback),
        total_of(set@) * 80 <= u128::MAX,
    ensures
        total == total_of(set@),
        fast * 5 >= total * 4,
        (fast - 1) * 5 < total * 4,
        fallback * 5 >= total * 3,
        (fallback - 1) * 5 < total * 3,
        fallback <= fast,
{
}

/// The leader of a round is a validator of the set, at the place that height and view
/// count to around the set.
pub proof fn law_leader_is_counted_to(set: &ValidatorSet, height: u64, view: u64, leader: &Validator)
    requires
        call_ensures(ValidatorSet::leader, (set, height, view), leader),
        set@.len() > 0,
    ensures
        leader@ == set@[(height + view) % (set@.len() as int)],
{
}

/// Each kind of certificate is made of the votes of its phase and needs its share.
pub proof fn law_certificates_need_their_votes(
    kind: CertificateKind,
    phase: VotePhase,
    percent: u128,
)
    requires
        call_ensures(CertificateKind::vote_phase, (kind,), phase),
        call_ensures(CertificateKind::required_percent, (kind,), percent),
    ensures
        kind == CertificateKind::Fast ==> phase == VotePhase::Order && percent == 80,
        kind == CertificateKind::Prepare ==> phase == VotePhase::Order && percent == 60,
        kind == CertificateKind::Commit ==> phase == VotePhase::Commit && percent == 60,
        kind == CertificateKind::Timeout ==> phase == VotePhase::Timeout && percent == 60,
{
}

/// Identities are digests of everything that they stand for: a block's of its height,
/// parent, transactions and fee commitment, a commitment's of its fees, and a piece of
/// evidence's of both votes, the one for the lower block first.
pub proof fn law_identities_digest_what_they_stand_for(
    height: u64,
    parent_id: Hash256,
    transactions: Seq<Hash256>,
    fees: Seq<u128>,
    low: VoteModel,
    high: VoteModel,
)
    requires
        low.block_id.precedes(high.block_id),
    ensures
        fee_commitment_of(fees) == hash_of(fee_bytes(fees)),
        block_id_of(height, parent_id, transactions, fee_commitment_of(fees)) == hash_of(
            block_bytes(height, parent_id, transactions, hash_of(fee_bytes(fees))),
        ),
        evidence_id(low, high) == hash_of(evidence_bytes(low, high)),
        evidence_id(high, low) == hash_of(evidence_bytes(low, high)),
{
    if high.block_id.precedes(low.block_id) {
        Hash256::precedes_transitive(low.block_id, high.block_id, low.block_id);
        Hash256::precedes_irreflexive(low.block_id);
    }
}

/// A replica that starts has voted for nothing and finalized nothing, and one that is
/// restored from the snapshot of another is where that one was.
pub proof fn law_replica_is_restored_from_its_snapshot<S: AggregateSignatureScheme>(
    replica: &Replica<S>,
    snapshot: ReplicaSnapshot,
    id: Hash256,
    private_key: Vec<u8>,
    validators: ValidatorSet,
    scheme: Arc<S>,
    restored: Replica<S>,
    height: u64,
    parent_id: Hash256,
    started: Replica<S>,
)
    requires
        call_ensures(Replica::<S>::snapshot, (replica,), snapshot),
        call_ensures(
            Replica::<S>::restore,
            (id, private_key, validators, scheme, snapshot),
            Ok(restored),
        ),
        call_ensures(
            Replica::<S>::new,
            (id, private_key, validators, scheme, height, parent_id),
            Ok(started),
        ),
    ensures
        restored.safety() == replica.safety(),
        restored.identity().id == id,
        restored.identity().private_key == private_key@,
        restored.identity().table == validators@,
        started.safety().height == height,
        started.safety().view == 0,
        started.safety().parent_id == parent_id,
        started.safety().lock is None,
        started.safety().votes.dom().len() == 0,
        started.safety().finalized.dom().len() == 0,
        started.identity() == restored.identity(),
{
}

/// A proposal says what it was made of, and its identity is that of just this.
pub proof fn law_proposal_says_what_it_was_made_of(
    height: u64,
    view: u64,
    parent_id: Hash256,
    proposer: Hash256,
    transaction_ids: Vec<Hash256>,
    fee_commitment: Hash256,
    justify: Option<QuorumCertificate>,
    proposal: Proposal,
)
    requires
        call_ensures(
            Proposal::new,
            (height, view, parent_id, proposer, transaction_ids, fee_commitment, justify),
            proposal,
        ),
    ensures
        proposal.height == height,
        proposal.view == view,
        proposal.parent_id == parent_id,
        proposal.proposer == proposer,
        proposal.transaction_ids@ == transaction_ids@,
        proposal.fee_commitment == fee_commitment,
        proposal.justify is Some <==> justify is Some,
        justify matches Some(given) ==> proposal.justify.unwrap()@ == given@,
        proposal.block_id == block_id_of(height, parent_id, transaction_ids@, fee_commitment),
{
    assert(proposal@.transaction_ids == proposal.transaction_ids@);
}

/// A judge slashes the least stake that covers the share of its policy, of the validator
/// that both votes are of.
pub proof fn law_judge_slashes_the_share_of_its_policy<S: AggregateSignatureScheme>(
    policy: SlashingPolicy,
    evidence: &EquivocationEvidence,
    validators: &ValidatorSet,
    scheme: &S,
    directive: SlashingDirective,
    i: int,
)
    requires
        call_ensures(
            SlashingPolicy::adjudicate::<S>,
            (policy, evidence, validators, scheme),
            Ok(directive),
        ),
        1 <= policy.basis_points() <= 10_000,
        ids_ascend(validators@),
        0 <= i < validators@.len(),
        validators@[i].id == evidence.first@.validator,
    ensures
        directive.validator == evidence.first@.validator,
        directive.slash_stake * 10_000 >= validators@[i].stake * policy.basis_points(),
        (directive.slash_stake - 1) * 10_000 < validators@[i].stake * policy.basis_points(),
        policy.basis_points() == 10_000 ==> directive.slash_stake == validators@[i].stake,
{
    law_slash_is_the_least_covering_share(
        evidence.first@,
        evidence.second@,
        policy.basis_points(),
        validators@,
        *scheme,
        directive,
        i,
    );
}

/// A snapshot is one that a replica can be in exactly where it is at some height, holds no
/// lock of another height or a later view, and has finalized lower heights only.
pub proof fn law_snapshot_is_of_one_moment(state: SafetyState)
    ensures
        snapshot_consistent(state) <==> {
            &&& state.height > 0
            &&& state.lock is Some ==> state.lock.unwrap().height == state.height
                && state.lock.unwrap().view <= state.view
            &&& forall|height: u64| #[trigger]
                state.finalized.contains_key(height) ==> height < state.height
        },
{
}

} // verus!
