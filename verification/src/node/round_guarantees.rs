//! What a round is for: the leader proposes what its source offers, validators vote for
//! it, and what is finalized is what was proposed.

use vstd::prelude::*;

use crate::consensus::certificates::{
    assembled, certificate_check, vote_refusal, CertificateKind, CertificateModel, CollectorModel,
};
use crate::consensus::errors::ConsensusError;
use crate::consensus::guarantees::{
    law_collected_certificate_names_what_was_collected, law_collector_counts_matching_votes_only,
    law_replica_votes_for_the_proposed_block, voted_in,
};
use crate::consensus::proposals::{
    block_id_of, proposal_bytes, OrderModel, ProposalModel, SignedProposalModel,
};
use crate::consensus::replica::{commit_step, order_step, SafetyState};
use crate::consensus::validators::{ids_ascend, lemma_member_at, member, stake_of, total_of};
use crate::consensus::votes::{vote_bytes, VoteModel, VotePhase};
use crate::crypto::{AggregateSignatureScheme, CryptoError};
use crate::node::coordinator::{
    advance_stage, certificate_received, certified, certify_stage, commit_order_step, finish_step,
    gathered, handle_step, in_validator_order, prepare_stage, propose_stage, replayable, replayed,
    resend_commit_stage, resend_order_stage, tick_step, timeout_of, timeout_stage, vote_stage,
    CertificateEmission, ContextModel, Flow, ReplyModel, SourceReply, TurnModel,
};
use crate::node::round::{
    certifiable, first_value, CoordinatorOutcome, EffectModel, RoundModel, WireModel,
};
use crate::ordered::{lemma_sorted_keys_of_finite, sorted_keys, strictly_sorted, SortKey};
use crate::types::{zero_hash, Hash256};

verus! {

/// The proposal of a validator for its round, with the transactions and fees of an
/// order: it stands on the validator's chain, and its block commits to all of that.
pub open spec fn proposal_for<S>(
    context: ContextModel<S>,
    safety: SafetyState,
    transaction_ids: Seq<Hash256>,
    fee_commitment: Hash256,
) -> ProposalModel {
    ProposalModel {
        height: safety.height,
        view: safety.view,
        parent_id: safety.parent_id,
        proposer: context.identity.id,
        transaction_ids,
        fee_commitment,
        justify: None,
        block_id: block_id_of(safety.height, safety.parent_id, transaction_ids, fee_commitment),
    }
}

/// Whether a validator is to make a new proposal: it leads its round, has made none,
/// has waited as long as it is told to, and is not told to equivocate.
pub open spec fn is_to_propose<S>(
    context: ContextModel<S>,
    safety: SafetyState,
    round: RoundModel,
    now: u64,
) -> bool {
    &&& context.identity.table.len() > 0
    &&& context.identity.id == context.identity.table[(safety.height + safety.view) % (
    context.identity.table.len() as int)].id
    &&& round.proposal is None
    &&& !context.faults.equivocate_when_leader
    &&& context.faults.proposal_delay_ms == 0 || now >= round.started
        + context.faults.proposal_delay_ms
}

/// Whether a message was broadcast after the first `from` effects.
pub open spec fn broadcast_after(
    effects: Seq<EffectModel>,
    from: nat,
    message: WireModel,
) -> bool {
    exists|k: int|
        from <= k < effects.len() && #[trigger] effects[k] == (EffectModel::Broadcast { message })
}

/// Whether effects were only added, and none but those that are allowed.
#[verifier::opaque]
spec fn adds_only(
    before: Seq<EffectModel>,
    after: Seq<EffectModel>,
    allowed: spec_fn(EffectModel) -> bool,
) -> bool {
    &&& before.len() <= after.len()
    &&& forall|k: int| 0 <= k < before.len() ==> #[trigger] after[k] == before[k]
    &&& forall|k: int| before.len() <= k < after.len() ==> allowed(#[trigger] after[k])
}

proof fn lemma_adds_nothing(effects: Seq<EffectModel>, allowed: spec_fn(EffectModel) -> bool)
    ensures
        adds_only(effects, effects, allowed),
{
    reveal(adds_only);
}

proof fn lemma_adds_one(
    before: Seq<EffectModel>,
    after: Seq<EffectModel>,
    effect: EffectModel,
    allowed: spec_fn(EffectModel) -> bool,
)
    requires
        adds_only(before, after, allowed),
        allowed(effect),
    ensures
        adds_only(before, after.push(effect), allowed),
{
    reveal(adds_only);
}

proof fn lemma_adds_more(
    first: Seq<EffectModel>,
    second: Seq<EffectModel>,
    third: Seq<EffectModel>,
    allowed: spec_fn(EffectModel) -> bool,
)
    requires
        adds_only(first, second, allowed),
        adds_only(second, third, allowed),
    ensures
        adds_only(first, third, allowed),
{
    reveal(adds_only);
    assert forall|k: int| first.len() <= k < third.len() implies allowed(#[trigger] third[k]) by {
        if k < second.len() {
            assert(third[k] == second[k]);
        }
    }
}

proof fn lemma_still_broadcast(
    before: Seq<EffectModel>,
    after: Seq<EffectModel>,
    from: nat,
    message: WireModel,
    allowed: spec_fn(EffectModel) -> bool,
)
    requires
        broadcast_after(before, from, message),
        adds_only(before, after, allowed),
    ensures
        broadcast_after(after, from, message),
{
    reveal(adds_only);
    let k = choose|k: int|
        from <= k < before.len() && #[trigger] before[k] == (EffectModel::Broadcast { message });
    assert(after[k] == before[k]);
}

/// Where every stage adds only what is allowed, so does what follows the proposal in a
/// tick.
proof fn lemma_tick_adds_only<S: AggregateSignatureScheme>(
    context: ContextModel<S>,
    turn: TurnModel,
    now: u64,
    reply: ReplyModel,
    allowed: spec_fn(EffectModel) -> bool,
)
    requires
        ({
            let proposed = propose_stage(context, turn, now, reply).0;
            let voting = vote_stage(context, proposed, now);
            let voted = resend_order_stage(context, voting, now);
            let certified = certify_stage(context, voted, now).0;
            let resent = resend_commit_stage(context, certified, now);
            let timed = timeout_stage(context, resent, now).0;
            let advanced = advance_stage(context, timed, now).0;
            &&& adds_only(proposed.effects, voting.effects, allowed)
            &&& adds_only(voting.effects, voted.effects, allowed)
            &&& adds_only(voted.effects, certified.effects, allowed)
            &&& adds_only(certified.effects, resent.effects, allowed)
            &&& adds_only(resent.effects, timed.effects, allowed)
            &&& adds_only(timed.effects, advanced.effects, allowed)
        }),
    ensures
        adds_only(
            propose_stage(context, turn, now, reply).0.effects,
            tick_step(context, turn, now, reply).0.effects,
            allowed,
        ),
{
    let proposed = propose_stage(context, turn, now, reply).0;
    let voting = vote_stage(context, proposed, now);
    let voted = resend_order_stage(context, voting, now);
    let certified = certify_stage(context, voted, now).0;
    let resent = resend_commit_stage(context, certified, now);
    let timed = timeout_stage(context, resent, now).0;
    let advanced = advance_stage(context, timed, now).0;
    let start = proposed.effects;
    lemma_adds_nothing(start, allowed);
    lemma_adds_more(start, voting.effects, voted.effects, allowed);
    lemma_adds_more(start, voted.effects, certified.effects, allowed);
    lemma_adds_more(start, certified.effects, resent.effects, allowed);
    lemma_adds_more(start, resent.effects, timed.effects, allowed);
    lemma_adds_more(start, timed.effects, advanced.effects, allowed);
}

/// Whatever is no proposal.
spec fn no_proposal() -> spec_fn(EffectModel) -> bool {
    |effect: EffectModel|
        !(effect matches EffectModel::Broadcast { message: WireModel::Proposal(_) })
}

proof fn lemma_voting_adds<S: AggregateSignatureScheme>(
    context: ContextModel<S>,
    turn: TurnModel,
    now: u64,
)
    ensures
        adds_only(turn.effects, vote_stage(context, turn, now).effects, no_proposal()),
        adds_only(turn.effects, resend_order_stage(context, turn, now).effects, no_proposal()),
        adds_only(turn.effects, resend_commit_stage(context, turn, now).effects, no_proposal()),
{
    reveal(adds_only);
}

proof fn lemma_certifying_adds<S: AggregateSignatureScheme>(
    context: ContextModel<S>,
    turn: TurnModel,
    now: u64,
)
    ensures
        adds_only(turn.effects, certify_stage(context, turn, now).0.effects, no_proposal()),
{
    reveal(adds_only);
}

proof fn lemma_timing_adds<S: AggregateSignatureScheme>(
    context: ContextModel<S>,
    turn: TurnModel,
    now: u64,
)
    ensures
        adds_only(turn.effects, timeout_stage(context, turn, now).0.effects, no_proposal()),
        adds_only(turn.effects, advance_stage(context, turn, now).0.effects, no_proposal()),
{
    reveal(adds_only);
}

/// After the first stage of a tick nothing is proposed.
proof fn lemma_rest_proposes_nothing<S: AggregateSignatureScheme>(
    context: ContextModel<S>,
    turn: TurnModel,
    now: u64,
    reply: ReplyModel,
)
    ensures
        adds_only(
            propose_stage(context, turn, now, reply).0.effects,
            tick_step(context, turn, now, reply).0.effects,
            no_proposal(),
        ),
{
    let proposed = propose_stage(context, turn, now, reply).0;
    let voting = vote_stage(context, proposed, now);
    let voted = resend_order_stage(context, voting, now);
    let certified = certify_stage(context, voted, now).0;
    let resent = resend_commit_stage(context, certified, now);
    let timed = timeout_stage(context, resent, now).0;
    lemma_voting_adds(context, proposed, now);
    lemma_voting_adds(context, voting, now);
    lemma_certifying_adds(context, voted, now);
    lemma_voting_adds(context, certified, now);
    lemma_timing_adds(context, resent, now);
    lemma_timing_adds(context, timed, now);
    lemma_tick_adds_only(context, turn, now, reply, no_proposal());
}

/// A leader that has made no proposal broadcasts one for exactly the order that its
/// source offers: its transactions, in order, and its fee commitment, on the leader's
/// chain, signed by the leader.
pub proof fn law_leader_proposes_what_its_source_offers<S: AggregateSignatureScheme>(
    context: ContextModel<S>,
    turn: TurnModel,
    now: u64,
    reply: SourceReply,
    signature: Seq<u8>,
)
    requires
        is_to_propose(context, turn.safety, turn.round, now),
        !reply.is_empty,
        reply.order is Some,
        context.identity.scheme.signature(
            context.identity.private_key,
            proposal_bytes(
                proposal_for(
                    context,
                    turn.safety,
                    reply.order.unwrap().transaction_ids@,
                    reply.order.unwrap().fee_commitment,
                ),
            ),
        ) == Ok::<Seq<u8>, CryptoError>(signature),
    ensures
        broadcast_after(
            tick_step(context, turn, now, reply@).0.effects,
            turn.effects.len(),
            WireModel::Proposal(
                SignedProposalModel {
                    proposal: proposal_for(
                        context,
                        turn.safety,
                        reply.order.unwrap().transaction_ids@,
                        reply.order.unwrap().fee_commitment,
                    ),
                    signature,
                },
            ),
        ),
{
    let order = reply.order.unwrap();
    let proposal = proposal_for(
        context,
        turn.safety,
        order.transaction_ids@,
        order.fee_commitment,
    );
    let signed = SignedProposalModel { proposal, signature };
    let (proposed, flow) = propose_stage(context, turn, now, reply@);
    let message = WireModel::Proposal(signed);
    assert(reply@.order == Some((order.transaction_ids@, order.fee_commitment)));
    assert(flow is Continue);
    assert(proposed.round.proposal == Some(signed));
    let k = proposed.effects.len() - 1;
    assert(proposed.effects[k] == (EffectModel::Broadcast { message }));
    assert(broadcast_after(proposed.effects, turn.effects.len(), message));
    lemma_rest_proposes_nothing(context, turn, now, reply@);
    lemma_still_broadcast(
        proposed.effects,
        tick_step(context, turn, now, reply@).0.effects,
        turn.effects.len(),
        message,
        no_proposal(),
    );
}

/// Whether an effect proposes nothing but what a validator may propose: the proposal
/// that it has made in this round, or one for the order that its source offers.
pub open spec fn proposes_faithfully<S>(
    context: ContextModel<S>,
    turn: TurnModel,
    reply: SourceReply,
    effect: EffectModel,
) -> bool {
    effect matches EffectModel::Broadcast { message: WireModel::Proposal(signed) } ==> {
        ||| turn.round.proposal == Some(signed)
        ||| {
            &&& turn.round.proposal is None
            &&& reply.order matches Some(order) && signed.proposal == proposal_for(
                context,
                turn.safety,
                order.transaction_ids@,
                order.fee_commitment,
            )
        }
    }
}

/// A validator never broadcasts a proposal for anything else than the order that its
/// source offered: what a tick adds to the effects proposes faithfully.
pub proof fn law_nothing_else_is_proposed<S: AggregateSignatureScheme>(
    context: ContextModel<S>,
    turn: TurnModel,
    now: u64,
    reply: SourceReply,
    k: int,
)
    requires
        turn.effects.len() <= k < tick_step(context, turn, now, reply@).0.effects.len(),
    ensures
        proposes_faithfully(
            context,
            turn,
            reply,
            tick_step(context, turn, now, reply@).0.effects[k],
        ),
{
    lemma_rest_proposes_nothing(context, turn, now, reply@);
    let proposed = propose_stage(context, turn, now, reply@).0.effects;
    let all = tick_step(context, turn, now, reply@).0.effects;
    if k < proposed.len() {
        lemma_propose_effects(context, turn, now, reply, k);
        assert(all[k] == proposed[k]) by {
            reveal(adds_only);
        }
    } else {
        assert(no_proposal()(all[k])) by {
            reveal(adds_only);
        }
    }
}

proof fn lemma_propose_effects<S: AggregateSignatureScheme>(
    context: ContextModel<S>,
    turn: TurnModel,
    now: u64,
    reply: SourceReply,
    k: int,
)
    requires
        turn.effects.len() <= k < propose_stage(context, turn, now, reply@).0.effects.len(),
    ensures
        proposes_faithfully(
            context,
            turn,
            reply,
            propose_stage(context, turn, now, reply@).0.effects[k],
        ),
{
}

/// A certificate that votes make is of what was asked for.
proof fn lemma_gathered_names<S: AggregateSignatureScheme>(
    start: CollectorModel,
    votes: Seq<VoteModel>,
    scheme: S,
)
    ensures
        ({
            let (state, certificate) = gathered(start, votes, scheme);
            &&& state.table == start.table
            &&& state.kind == start.kind
            &&& state.height == start.height
            &&& state.view == start.view
            &&& state.block_id == start.block_id
            &&& certificate matches Some(formed) ==> formed.kind == start.kind && formed.height
                == start.height && formed.view == start.view && formed.block_id == start.block_id
        }),
    decreases votes.len(),
{
    if votes.len() > 0 {
        lemma_gathered_names(start, votes.drop_last(), scheme);
    }
}

/// A certificate is of the kind, the round and the block that it was made for.
pub proof fn law_certificate_is_of_what_was_voted_on<S: AggregateSignatureScheme>(
    context: ContextModel<S>,
    kind: CertificateKind,
    height: u64,
    view: u64,
    block_id: Hash256,
    votes: Map<Hash256, VoteModel>,
)
    ensures
        certified(context, kind, height, view, block_id, votes) matches Some(certificate) ==> {
            &&& certificate.kind == kind
            &&& certificate.height == height
            &&& certificate.view == view
            &&& certificate.block_id == block_id
        },
{
    lemma_gathered_names(
        CollectorModel {
            table: context.identity.table,
            kind,
            height,
            view,
            block_id,
            votes: Map::empty(),
        },
        in_validator_order(votes),
        context.identity.scheme,
    );
}

/// Whether a vote is a listed validator's for a block, in a round and phase, and its
/// signature verifies.
pub open spec fn is_vote_for<S: AggregateSignatureScheme>(
    context: ContextModel<S>,
    vote: VoteModel,
    height: u64,
    view: u64,
    block_id: Hash256,
    phase: VotePhase,
) -> bool {
    &&& vote.height == height
    &&& vote.view == view
    &&& vote.block_id == block_id
    &&& vote.phase == phase
    &&& exists|i: int|
        0 <= i < context.identity.table.len() && (#[trigger] context.identity.table[i]).id
            == vote.validator && context.identity.scheme.verification(
            context.identity.table[i].public_key,
            vote_bytes(height, view, block_id, phase),
            vote.signature,
        ) is Ok
}

/// The gathered votes once all that were given are counted.
proof fn lemma_gathers_all<S: AggregateSignatureScheme>(
    context: ContextModel<S>,
    start: CollectorModel,
    votes: Map<Hash256, VoteModel>,
    keys: Seq<Hash256>,
    count: nat,
)
    requires
        ids_ascend(context.identity.table),
        start.table == context.identity.table,
        start.votes == Map::<Hash256, Seq<u8>>::empty(),
        count <= keys.len(),
        strictly_sorted(keys),
        forall|i: int|
            0 <= i < keys.len() ==> votes.contains_key(#[trigger] keys[i])
                && votes[keys[i]].validator == keys[i] && is_vote_for(
                context,
                votes[keys[i]],
                start.height,
                start.view,
                start.block_id,
                voted_in(start.kind),
            ),
    ensures
        ({
            let list = keys.map_values(|id: Hash256| votes[id]);
            let (state, certificate) = gathered(
                start,
                list.take(count as int),
                context.identity.scheme,
            );
            &&& forall|id: Hash256| #[trigger]
                state.votes.contains_key(id) <==> keys.take(count as int).contains(id)
            &&& forall|id: Hash256|
                state.votes.contains_key(id) ==> #[trigger] state.votes[id] == votes[id].signature
            &&& count > 0 ==> (assembled(
                state,
                sorted_keys(state.votes.dom()),
                context.identity.scheme,
            ) matches Ok(Some(formed)) ==> certificate == Some(formed))
        }),
    decreases count,
{
    let list = keys.map_values(|id: Hash256| votes[id]);
    let scheme = context.identity.scheme;
    if count > 0 {
        let i = (count - 1) as nat;
        lemma_gathers_all(context, start, votes, keys, i);
        lemma_gathered_names(start, list.take(i as int), scheme);
        let given = list.take(count as int);
        assert(given.drop_last() =~= list.take(i as int));
        let (before, _certificate) = gathered(start, list.take(i as int), scheme);
        let vote = given.last();
        let id = keys[i as int];
        assert(vote == votes[id]);
        assert(!keys.take(i as int).contains(id)) by {
            if keys.take(i as int).contains(id) {
                let k = choose|k: int| 0 <= k < i && keys.take(i as int)[k] == id;
                assert(keys[k].precedes(keys[i as int]));
                Hash256::precedes_irreflexive(id);
            }
        }
        law_collector_counts_matching_votes_only(before, vote, scheme);
        assert(vote_refusal(before, vote, scheme) is None);
        let shorter = keys.take(i as int);
        let longer = keys.take(count as int);
        assert forall|other: Hash256| longer.contains(other) <==> shorter.contains(other) || other
            == id by {
            if shorter.contains(other) {
                let k = choose|k: int| 0 <= k < shorter.len() && shorter[k] == other;
                assert(longer[k] == other);
            }
            assert(longer[i as int] == id);
            if longer.contains(other) && other != id {
                let k = choose|k: int| 0 <= k < longer.len() && longer[k] == other;
                assert(shorter[k] == other);
            }
        }
    }
}

/// Enough votes make the certificate: where every vote is for the block, in the round
/// and in the phase of a certificate, their stake is four fifths for a fast one or
/// three fifths for any other, and their signatures combine, the certificate is made,
/// and all that voted have signed it.
pub proof fn law_enough_votes_make_the_certificate<S: AggregateSignatureScheme>(
    context: ContextModel<S>,
    kind: CertificateKind,
    height: u64,
    view: u64,
    block_id: Hash256,
    votes: Map<Hash256, VoteModel>,
    keys: Seq<Hash256>,
)
    requires
        ids_ascend(context.identity.table),
        total_of(context.identity.table) * 80 <= u128::MAX,
        strictly_sorted(keys),
        keys.to_set() == votes.dom(),
        keys.len() > 0,
        forall|id: Hash256| #[trigger]
            votes.contains_key(id) ==> votes[id].validator == id && is_vote_for(
                context,
                votes[id],
                height,
                view,
                block_id,
                voted_in(kind),
            ),
        100 * stake_of(context.identity.table, votes.dom()) >= (if kind == CertificateKind::Fast {
            80int
        } else {
            60int
        }) * total_of(context.identity.table),
        context.identity.scheme.aggregation(
            keys.map_values(|id: Hash256| votes[id].signature),
        ) is Ok,
    ensures
        certified(context, kind, height, view, block_id, votes) matches Some(certificate)
            && certificate.signers == keys && certificate.signed_stake == stake_of(
            context.identity.table,
            votes.dom(),
        ) as u128,
{
    let start = CollectorModel {
        table: context.identity.table,
        kind,
        height,
        view,
        block_id,
        votes: Map::empty(),
    };
    let scheme = context.identity.scheme;
    let list = keys.map_values(|id: Hash256| votes[id]);
    crate::ordered::lemma_sorted_keys(keys);
    assert(in_validator_order(votes) =~= list);
    assert forall|i: int| 0 <= i < keys.len() implies votes.contains_key(#[trigger] keys[i])
        && votes[keys[i]].validator == keys[i] && is_vote_for(
        context,
        votes[keys[i]],
        start.height,
        start.view,
        start.block_id,
        voted_in(start.kind),
    ) by {
        assert(keys.contains(keys[i]));
        assert(keys.to_set().contains(keys[i]));
    }
    lemma_gathers_all(context, start, votes, keys, keys.len());
    lemma_gathered_names(start, list, scheme);
    assert(list.take(keys.len() as int) =~= list);
    assert(keys.take(keys.len() as int) =~= keys);
    let (state, _certificate) = gathered(start, list, scheme);
    assert(state.votes.dom() =~= votes.dom()) by {
        assert forall|id: Hash256| state.votes.contains_key(id) <==> votes.contains_key(id) by {
            assert(keys.to_set().contains(id) <==> keys.contains(id));
        }
    }
    law_collected_certificate_names_what_was_collected(state, keys, scheme);
    let signatures = keys.map_values(|id: Hash256| votes[id].signature);
    let counted = keys.map_values(|id: Hash256| state.votes[id]);
    assert(counted =~= signatures) by {
        assert forall|i: int| 0 <= i < keys.len() implies counted[i] == signatures[i] by {
            assert(keys.contains(keys[i]));
            assert(state.votes.contains_key(keys[i]));
        }
    }
}

/// Whether a validator knows a proposal in a tick: it has made it, it has received it,
/// or it makes it now of what its source offers.
pub open spec fn knows_proposal<S>(
    context: ContextModel<S>,
    turn: TurnModel,
    reply: SourceReply,
    proposal: ProposalModel,
) -> bool {
    ||| turn.round.proposal matches Some(signed) && signed.proposal == proposal
    ||| exists|id: Hash256| #[trigger]
        turn.round.observed.contains_key(id) && turn.round.observed[id].proposal == proposal
    ||| reply.order matches Some(order) && proposal == proposal_for(
        context,
        turn.safety,
        order.transaction_ids@,
        order.fee_commitment,
    )
}

/// Whether an order is that of a proposal, under a certificate for its block.
pub open spec fn orders(order: OrderModel, proposal: ProposalModel) -> bool {
    &&& order.transaction_ids == proposal.transaction_ids
    &&& order.fee_commitment == proposal.fee_commitment
    &&& order.block_id == proposal.block_id
    &&& order.certificate.block_id == proposal.block_id
    &&& order.certificate.height == order.height
    &&& order.certificate.kind == CertificateKind::Fast || order.certificate.kind
        == CertificateKind::Commit
}

/// Whether an effect finalizes nothing but a proposal that the validator knows.
pub open spec fn finalizes_faithfully<S>(
    context: ContextModel<S>,
    turn: TurnModel,
    reply: SourceReply,
    effect: EffectModel,
) -> bool {
    effect matches EffectModel::Finalize { order, outcome } ==> {
        &&& order.height == turn.safety.height
        &&& outcome.finalized_height == order.height
        &&& outcome.finalized_block == order.block_id
        &&& exists|proposal: ProposalModel| #[trigger]
            knows_proposal(context, turn, reply, proposal) && orders(order, proposal)
    }
}

/// Whatever is no finalization.
spec fn no_finalization() -> spec_fn(EffectModel) -> bool {
    |effect: EffectModel| !(effect is Finalize)
}

/// Whatever finalizes, if it does, a given proposal at a height.
spec fn finalizes_only(height: u64, proposal: ProposalModel) -> spec_fn(EffectModel) -> bool {
    |effect: EffectModel|
        effect matches EffectModel::Finalize { order, outcome } ==> order.height == height
            && outcome.finalized_height == height && outcome.finalized_block == order.block_id
            && orders(order, proposal)
}

proof fn lemma_no_finalization_is_fine(
    before: Seq<EffectModel>,
    after: Seq<EffectModel>,
    height: u64,
    proposal: ProposalModel,
)
    requires
        adds_only(before, after, no_finalization()),
    ensures
        adds_only(before, after, finalizes_only(height, proposal)),
{
    reveal(adds_only);
    assert forall|k: int| before.len() <= k < after.len() implies finalizes_only(
        height,
        proposal,
    )(#[trigger] after[k]) by {
        assert(no_finalization()(after[k]));
    }
}

proof fn lemma_voting_finalizes_nothing<S: AggregateSignatureScheme>(
    context: ContextModel<S>,
    turn: TurnModel,
    now: u64,
    reply: ReplyModel,
)
    ensures
        adds_only(turn.effects, vote_stage(context, turn, now).effects, no_finalization()),
        adds_only(turn.effects, resend_order_stage(context, turn, now).effects, no_finalization()),
        adds_only(turn.effects, resend_commit_stage(context, turn, now).effects, no_finalization()),
        vote_stage(context, turn, now).round.proposal == turn.round.proposal,
        vote_stage(context, turn, now).round.observed == turn.round.observed,
        vote_stage(context, turn, now).safety.height == turn.safety.height,
        resend_order_stage(context, turn, now).round.proposal == turn.round.proposal,
        resend_order_stage(context, turn, now).round.observed == turn.round.observed,
        resend_order_stage(context, turn, now).safety == turn.safety,
{
    reveal(adds_only);
}

proof fn lemma_timing_finalizes_nothing<S: AggregateSignatureScheme>(
    context: ContextModel<S>,
    turn: TurnModel,
    now: u64,
)
    ensures
        adds_only(turn.effects, timeout_stage(context, turn, now).0.effects, no_finalization()),
        adds_only(turn.effects, advance_stage(context, turn, now).0.effects, no_finalization()),
{
    reveal(adds_only);
}

proof fn lemma_proposing_finalizes_nothing<S: AggregateSignatureScheme>(
    context: ContextModel<S>,
    turn: TurnModel,
    now: u64,
    reply: SourceReply,
)
    ensures
        ({
            let after = propose_stage(context, turn, now, reply@).0;
            &&& adds_only(turn.effects, after.effects, no_finalization())
            &&& after.safety.height == turn.safety.height
            &&& after.round.observed == turn.round.observed
            &&& after.round.proposal == turn.round.proposal || (turn.round.proposal is None
                && after.round.proposal is Some && reply.order is Some
                && after.round.proposal.unwrap().proposal == proposal_for(
                context,
                turn.safety,
                reply.order.unwrap().transaction_ids@,
                reply.order.unwrap().fee_commitment,
            ))
        }),
{
    reveal(adds_only);
}

proof fn lemma_committing_finalizes<S: AggregateSignatureScheme>(
    context: ContextModel<S>,
    turn: TurnModel,
    certificate: CertificateModel,
    proposal: ProposalModel,
    now: u64,
)
    requires
        certificate.block_id == proposal.block_id,
        certificate.kind == CertificateKind::Fast || certificate.kind == CertificateKind::Commit,
        !turn.safety.finalized.contains_key(certificate.height),
    ensures
        adds_only(
            turn.effects,
            finish_step(context, turn, certificate, proposal, now).0.effects,
            finalizes_only(turn.safety.height, proposal),
        ),
{
    reveal(adds_only);
}

proof fn lemma_preparing_finalizes_nothing<S: AggregateSignatureScheme>(
    context: ContextModel<S>,
    turn: TurnModel,
    proposal: ProposalModel,
    now: u64,
)
    ensures
        ({
            let after = prepare_stage(context, turn, proposal, now);
            &&& adds_only(turn.effects, after.effects, no_finalization())
            &&& after.safety.height == turn.safety.height
            &&& after.safety.finalized == turn.safety.finalized
        }),
{
    reveal(adds_only);
}

proof fn lemma_certifying_finalizes<S: AggregateSignatureScheme>(
    context: ContextModel<S>,
    turn: TurnModel,
    now: u64,
    signed: SignedProposalModel,
)
    requires
        certifiable(turn.round) == Some(signed),
        !turn.safety.finalized.contains_key(turn.safety.height),
    ensures
        adds_only(
            turn.effects,
            certify_stage(context, turn, now).0.effects,
            finalizes_only(turn.safety.height, signed.proposal),
        ),
{
    let proposal = signed.proposal;
    let allowed = finalizes_only(turn.safety.height, proposal);
    lemma_adds_nothing(turn.effects, allowed);
    law_certificate_is_of_what_was_voted_on(
        context,
        CertificateKind::Fast,
        turn.safety.height,
        turn.safety.view,
        proposal.block_id,
        turn.round.order_votes,
    );
    match certified(
        context,
        CertificateKind::Fast,
        turn.safety.height,
        turn.safety.view,
        proposal.block_id,
        turn.round.order_votes,
    ) {
        Some(certificate) => {
            lemma_committing_finalizes(context, turn, certificate, proposal, now);
        },
        None => {
            let prepared = prepare_stage(context, turn, proposal, now);
            lemma_preparing_finalizes_nothing(context, turn, proposal, now);
            lemma_no_finalization_is_fine(
                turn.effects,
                prepared.effects,
                turn.safety.height,
                proposal,
            );
            law_certificate_is_of_what_was_voted_on(
                context,
                CertificateKind::Commit,
                turn.safety.height,
                turn.safety.view,
                proposal.block_id,
                prepared.round.commit_votes,
            );
            if let Some(certificate) = certified(
                context,
                CertificateKind::Commit,
                turn.safety.height,
                turn.safety.view,
                proposal.block_id,
                prepared.round.commit_votes,
            ) {
                lemma_committing_finalizes(context, prepared, certificate, proposal, now);
                lemma_adds_more(
                    turn.effects,
                    prepared.effects,
                    finish_step(context, prepared, certificate, proposal, now).0.effects,
                    allowed,
                );
            }
        },
    }
}

/// What a tick finalizes is a proposal that the validator knows, in full: the order
/// names the transactions and the fees of the proposal whose block the certificate is
/// for.
pub proof fn law_tick_finalizes_what_was_proposed<S: AggregateSignatureScheme>(
    context: ContextModel<S>,
    turn: TurnModel,
    now: u64,
    reply: SourceReply,
    k: int,
)
    requires
        !turn.safety.finalized.contains_key(turn.safety.height),
        turn.round.observed.dom().finite(),
        turn.effects.len() <= k < tick_step(context, turn, now, reply@).0.effects.len(),
    ensures
        finalizes_faithfully(
            context,
            turn,
            reply,
            tick_step(context, turn, now, reply@).0.effects[k],
        ),
{
    let proposed = propose_stage(context, turn, now, reply@).0;
    let voting = vote_stage(context, proposed, now);
    let voted = resend_order_stage(context, voting, now);
    let after = tick_step(context, turn, now, reply@).0;
    lemma_proposing_finalizes_nothing(context, turn, now, reply);
    lemma_voting_finalizes_nothing(context, proposed, now, reply@);
    lemma_voting_finalizes_nothing(context, voting, now, reply@);
    let height = turn.safety.height;
    lemma_votes_finalize_nothing(context, turn, now, reply@);
    match certifiable(voted.round) {
        Some(signed) => {
            let proposal = signed.proposal;
            let allowed = finalizes_only(height, proposal);
            lemma_rest_finalizes(context, turn, now, reply@, signed);
            lemma_no_finalization_is_fine(turn.effects, proposed.effects, height, proposal);
            lemma_adds_more(turn.effects, proposed.effects, after.effects, allowed);
            lemma_certifiable_is_known(context, turn, now, reply, voted.round, proposal);
            assert(allowed(after.effects[k])) by {
                reveal(adds_only);
            }
        },
        None => {
            lemma_rest_finalizes_nothing(context, turn, now, reply@);
            lemma_adds_more(
                turn.effects,
                proposed.effects,
                after.effects,
                no_finalization(),
            );
            assert(no_finalization()(after.effects[k])) by {
                reveal(adds_only);
            }
        },
    }
}

/// Neither proposing nor voting changes what is finalized.
proof fn lemma_votes_finalize_nothing<S: AggregateSignatureScheme>(
    context: ContextModel<S>,
    turn: TurnModel,
    now: u64,
    reply: ReplyModel,
)
    ensures
        ({
            let proposed = propose_stage(context, turn, now, reply).0;
            let voting = vote_stage(context, proposed, now);
            let voted = resend_order_stage(context, voting, now);
            &&& voted.safety.finalized == turn.safety.finalized
            &&& voted.safety.height == turn.safety.height
        }),
{
    let proposed = propose_stage(context, turn, now, reply).0;
    assert(proposed.safety.finalized == turn.safety.finalized && proposed.safety.height
        == turn.safety.height);
    lemma_vote_keeps_finality(context, proposed, now);
}

proof fn lemma_vote_keeps_finality<S: AggregateSignatureScheme>(
    context: ContextModel<S>,
    turn: TurnModel,
    now: u64,
)
    ensures
        vote_stage(context, turn, now).safety.finalized == turn.safety.finalized,
        vote_stage(context, turn, now).safety.height == turn.safety.height,
{
}

proof fn lemma_certifiable_is_known<S: AggregateSignatureScheme>(
    context: ContextModel<S>,
    turn: TurnModel,
    now: u64,
    reply: SourceReply,
    round: RoundModel,
    proposal: ProposalModel,
)
    requires
        round.observed == turn.round.observed,
        turn.round.observed.dom().finite(),
        certifiable(round) matches Some(signed) && signed.proposal == proposal,
        round.proposal == turn.round.proposal || (turn.round.proposal is None && round.proposal is Some
            && reply.order is Some && round.proposal.unwrap().proposal == proposal_for(
            context,
            turn.safety,
            reply.order.unwrap().transaction_ids@,
            reply.order.unwrap().fee_commitment,
        )),
    ensures
        knows_proposal(context, turn, reply, proposal),
{
    if round.proposal is None {
        let observed = turn.round.observed;
        lemma_first_value_is_there(observed);
    }
}

/// The first value of a map is one of its values.
proof fn lemma_first_value_is_there<V>(map: Map<Hash256, V>)
    requires
        first_value(map) is Some,
        map.dom().finite(),
    ensures
        exists|id: Hash256| #[trigger] map.contains_key(id) && Some(map[id]) == first_value(map),
{
    lemma_sorted_keys_of_finite(map.dom());
    let keys = sorted_keys(map.dom());
    assert(keys.contains(keys[0]));
    assert(map.contains_key(keys[0]));
}

proof fn lemma_rest_finalizes<S: AggregateSignatureScheme>(
    context: ContextModel<S>,
    turn: TurnModel,
    now: u64,
    reply: ReplyModel,
    signed: SignedProposalModel,
)
    requires
        ({
            let proposed = propose_stage(context, turn, now, reply).0;
            let voted = resend_order_stage(context, vote_stage(context, proposed, now), now);
            &&& certifiable(voted.round) == Some(signed)
            &&& voted.safety.height == turn.safety.height
            &&& !voted.safety.finalized.contains_key(voted.safety.height)
        }),
    ensures
        adds_only(
            propose_stage(context, turn, now, reply).0.effects,
            tick_step(context, turn, now, reply).0.effects,
            finalizes_only(turn.safety.height, signed.proposal),
        ),
{
    let height = turn.safety.height;
    let proposal = signed.proposal;
    let proposed = propose_stage(context, turn, now, reply).0;
    let voting = vote_stage(context, proposed, now);
    let voted = resend_order_stage(context, voting, now);
    let certified = certify_stage(context, voted, now).0;
    let resent = resend_commit_stage(context, certified, now);
    let timed = timeout_stage(context, resent, now).0;
    let advanced = advance_stage(context, timed, now).0;
    lemma_voting_finalizes_nothing(context, proposed, now, reply);
    lemma_voting_finalizes_nothing(context, voting, now, reply);
    lemma_certifying_finalizes(context, voted, now, signed);
    lemma_voting_finalizes_nothing(context, certified, now, reply);
    lemma_timing_finalizes_nothing(context, resent, now);
    lemma_timing_finalizes_nothing(context, timed, now);
    lemma_no_finalization_is_fine(proposed.effects, voting.effects, height, proposal);
    lemma_no_finalization_is_fine(voting.effects, voted.effects, height, proposal);
    lemma_no_finalization_is_fine(certified.effects, resent.effects, height, proposal);
    lemma_no_finalization_is_fine(resent.effects, timed.effects, height, proposal);
    lemma_no_finalization_is_fine(timed.effects, advanced.effects, height, proposal);
    lemma_tick_adds_only(context, turn, now, reply, finalizes_only(height, proposal));
}

proof fn lemma_rest_finalizes_nothing<S: AggregateSignatureScheme>(
    context: ContextModel<S>,
    turn: TurnModel,
    now: u64,
    reply: ReplyModel,
)
    requires
        ({
            let proposed = propose_stage(context, turn, now, reply).0;
            let voted = resend_order_stage(context, vote_stage(context, proposed, now), now);
            certifiable(voted.round) is None
        }),
    ensures
        adds_only(
            propose_stage(context, turn, now, reply).0.effects,
            tick_step(context, turn, now, reply).0.effects,
            no_finalization(),
        ),
{
    let proposed = propose_stage(context, turn, now, reply).0;
    let voting = vote_stage(context, proposed, now);
    let voted = resend_order_stage(context, voting, now);
    let certified = certify_stage(context, voted, now).0;
    let resent = resend_commit_stage(context, certified, now);
    let timed = timeout_stage(context, resent, now).0;
    lemma_voting_finalizes_nothing(context, proposed, now, reply);
    lemma_voting_finalizes_nothing(context, voting, now, reply);
    lemma_adds_nothing(voted.effects, no_finalization());
    assert(certified == voted);
    lemma_voting_finalizes_nothing(context, certified, now, reply);
    lemma_timing_finalizes_nothing(context, resent, now);
    lemma_timing_finalizes_nothing(context, timed, now);
    lemma_tick_adds_only(context, turn, now, reply, no_finalization());
}

/// A validator that does not lead broadcasts its vote for the one proposal that it has
/// received, once it has waited as long as it is told to and its replica casts that
/// vote; the vote is for the proposed block.
pub proof fn law_follower_votes_for_what_was_proposed<S: AggregateSignatureScheme>(
    context: ContextModel<S>,
    turn: TurnModel,
    now: u64,
    reply: SourceReply,
    received: u64,
    signed: SignedProposalModel,
    vote: VoteModel,
)
    requires
        context.identity.table.len() > 0,
        context.identity.id != context.identity.table[(turn.safety.height + turn.safety.view) % (
        context.identity.table.len() as int)].id,
        !context.faults.withhold_votes,
        !context.faults.corrupt_votes,
        !turn.round.flags.equivocation_detected,
        !turn.round.flags.proposal_vote_sent,
        turn.round.last_proposal_vote_sent is None,
        turn.round.first_proposal_at == Some(received),
        now >= received + context.config.proposal_vote_delay_ms,
        turn.round.observed == map![signed.proposal.block_id => signed],
        order_step(turn.safety, context.identity, signed.proposal).1 == Ok::<
            VoteModel,
            ConsensusError,
        >(vote),
    ensures
        vote.block_id == signed.proposal.block_id,
        vote.height == turn.safety.height,
        vote.view == turn.safety.view,
        vote.validator == context.identity.id,
        broadcast_after(
            tick_step(context, turn, now, reply@).0.effects,
            turn.effects.len(),
            WireModel::Vote(vote),
        ),
{
    law_replica_votes_for_the_proposed_block(turn.safety, context.identity, signed.proposal);
    let id = signed.proposal.block_id;
    let keys = seq![id];
    assert forall|one: Hash256| keys.to_set().contains(one) <==> turn.round.observed.dom().contains(
        one,
    ) by {
        assert(keys[0] == id);
        assert(keys.contains(one) <==> one == id);
    }
    assert(keys.to_set() =~= turn.round.observed.dom());
    crate::ordered::lemma_sorted_keys(keys);
    assert(first_value(turn.round.observed) == Some(signed));
    let proposed = propose_stage(context, turn, now, reply@).0;
    assert(proposed == turn);
    let voting = vote_stage(context, proposed, now);
    assert(voting.round.proposal_vote == Some(vote));
    let voted = resend_order_stage(context, voting, now);
    let k = voted.effects.len() - 1;
    let message = WireModel::Vote(vote);
    assert(voted.effects[k] == (EffectModel::Broadcast { message }));
    assert(broadcast_after(voted.effects, turn.effects.len(), message));
    lemma_after_votes(context, turn, now, reply@);
    lemma_still_broadcast(
        voted.effects,
        tick_step(context, turn, now, reply@).0.effects,
        turn.effects.len(),
        message,
        no_proposal(),
    );
}

/// A leader broadcasts its own vote for the proposal that it makes, where its replica
/// casts it.
pub proof fn law_leader_votes_for_its_proposal<S: AggregateSignatureScheme>(
    context: ContextModel<S>,
    turn: TurnModel,
    now: u64,
    reply: SourceReply,
    signature: Seq<u8>,
    vote: VoteModel,
)
    requires
        is_to_propose(context, turn.safety, turn.round, now),
        !context.faults.withhold_votes,
        turn.round.last_proposal_vote_sent is None,
        !reply.is_empty,
        reply.order is Some,
        ({
            let proposal = proposal_for(
                context,
                turn.safety,
                reply.order.unwrap().transaction_ids@,
                reply.order.unwrap().fee_commitment,
            );
            &&& context.identity.scheme.signature(
                context.identity.private_key,
                proposal_bytes(proposal),
            ) == Ok::<Seq<u8>, CryptoError>(signature)
            &&& order_step(turn.safety, context.identity, proposal).1 == Ok::<
                VoteModel,
                ConsensusError,
            >(vote)
        }),
    ensures
        vote.block_id == block_id_of(
            turn.safety.height,
            turn.safety.parent_id,
            reply.order.unwrap().transaction_ids@,
            reply.order.unwrap().fee_commitment,
        ),
        broadcast_after(
            tick_step(context, turn, now, reply@).0.effects,
            turn.effects.len(),
            WireModel::Vote(vote),
        ),
{
    let order = reply.order.unwrap();
    let proposal = proposal_for(
        context,
        turn.safety,
        order.transaction_ids@,
        order.fee_commitment,
    );
    law_replica_votes_for_the_proposed_block(turn.safety, context.identity, proposal);
    let (proposed, flow) = propose_stage(context, turn, now, reply@);
    assert(reply@.order == Some((order.transaction_ids@, order.fee_commitment)));
    assert(flow is Continue);
    assert(proposed.round.proposal_vote == Some(vote));
    assert(proposed.round.last_proposal_vote_sent is None);
    assert(proposed.effects.len() >= turn.effects.len());
    let voting = vote_stage(context, proposed, now);
    assert(proposed.safety.height == turn.safety.height && proposed.safety.view
        == turn.safety.view);
    assert(voting == proposed);
    let voted = resend_order_stage(context, voting, now);
    let k = voted.effects.len() - 1;
    let message = WireModel::Vote(vote);
    assert(voted.effects[k] == (EffectModel::Broadcast { message }));
    assert(broadcast_after(voted.effects, turn.effects.len(), message));
    lemma_after_votes(context, turn, now, reply@);
    lemma_still_broadcast(
        voted.effects,
        tick_step(context, turn, now, reply@).0.effects,
        turn.effects.len(),
        message,
        no_proposal(),
    );
}

/// What follows the votes of a tick only adds effects.
proof fn lemma_after_votes<S: AggregateSignatureScheme>(
    context: ContextModel<S>,
    turn: TurnModel,
    now: u64,
    reply: ReplyModel,
)
    requires
        !(propose_stage(context, turn, now, reply).1 is Fail),
    ensures
        ({
            let proposed = propose_stage(context, turn, now, reply).0;
            let voted = resend_order_stage(context, vote_stage(context, proposed, now), now);
            adds_only(
                voted.effects,
                tick_step(context, turn, now, reply).0.effects,
                no_proposal(),
            )
        }),
{
    let proposed = propose_stage(context, turn, now, reply).0;
    let voting = vote_stage(context, proposed, now);
    let voted = resend_order_stage(context, voting, now);
    let certified = certify_stage(context, voted, now).0;
    let resent = resend_commit_stage(context, certified, now);
    let timed = timeout_stage(context, resent, now).0;
    let advanced = advance_stage(context, timed, now).0;
    lemma_certifying_adds(context, voted, now);
    lemma_voting_adds(context, certified, now);
    lemma_timing_adds(context, resent, now);
    lemma_timing_adds(context, timed, now);
    lemma_adds_more(voted.effects, certified.effects, resent.effects, no_proposal());
    lemma_adds_more(voted.effects, resent.effects, timed.effects, no_proposal());
    lemma_adds_more(voted.effects, timed.effects, advanced.effects, no_proposal());
}

/// Four fifths finalize at once: where the votes for the proposal of a round make a fast
/// certificate, certifying broadcasts it with the proposal's transactions and fees and
/// finalizes exactly these.
pub proof fn law_fast_certificate_finalizes_the_proposal<S: AggregateSignatureScheme>(
    context: ContextModel<S>,
    turn: TurnModel,
    now: u64,
    signed: SignedProposalModel,
    certificate: CertificateModel,
)
    requires
        context.faults.certificate_emission == CertificateEmission::Enabled,
        turn.round.proposal == Some(signed),
        certified(
            context,
            CertificateKind::Fast,
            turn.safety.height,
            turn.safety.view,
            signed.proposal.block_id,
            turn.round.order_votes,
        ) == Some(certificate),
        certificate_check(certificate, context.identity.table, context.identity.scheme) is Ok,
        !turn.safety.finalized.contains_key(turn.safety.height),
        turn.safety.height < u64::MAX,
    ensures
        ({
            let (after, flow) = certify_stage(context, turn, now);
            let count = turn.effects.len() as int;
            &&& after.effects.len() == count + 3
            &&& after.effects[count] == (EffectModel::Broadcast {
                message: WireModel::Certificate {
                    certificate,
                    transaction_ids: Some(signed.proposal.transaction_ids),
                    fee_commitment: Some(signed.proposal.fee_commitment),
                },
            })
            &&& after.effects[count + 2] matches EffectModel::Finalize { order, outcome }
                && order.height == turn.safety.height && order.block_id
                == signed.proposal.block_id && order.transaction_ids
                == signed.proposal.transaction_ids && order.fee_commitment
                == signed.proposal.fee_commitment && order.certificate == certificate
                && outcome.finalized_height == turn.safety.height && outcome.finalized_block
                == signed.proposal.block_id && outcome.view_changes == turn.safety.view
                && flow == Flow::Finish(Some(outcome))
            &&& after.safety.height == turn.safety.height + 1
            &&& after.safety.view == 0
            &&& after.safety.parent_id == signed.proposal.block_id
            &&& after.round.proposal is None
            &&& after.round.order_votes == Map::<Hash256, VoteModel>::empty()
        }),
{
    law_certificate_is_of_what_was_voted_on(
        context,
        CertificateKind::Fast,
        turn.safety.height,
        turn.safety.view,
        signed.proposal.block_id,
        turn.round.order_votes,
    );
}

/// A certificate of this height that a listed validator sends along with the order that
/// its block commits to finalizes exactly that order.
pub proof fn law_received_certificate_finalizes_its_order<S: AggregateSignatureScheme>(
    context: ContextModel<S>,
    turn: TurnModel,
    sender: Hash256,
    certificate: CertificateModel,
    transaction_ids: Seq<Hash256>,
    fee_commitment: Hash256,
    now: u64,
)
    requires
        member(context.identity.table, sender) is Some,
        certificate_check(certificate, context.identity.table, context.identity.scheme) is Ok,
        certificate.kind == CertificateKind::Fast || certificate.kind == CertificateKind::Commit,
        certificate.height == turn.safety.height,
        certificate.block_id == block_id_of(
            turn.safety.height,
            turn.safety.parent_id,
            transaction_ids,
            fee_commitment,
        ),
        !turn.safety.finalized.contains_key(turn.safety.height),
        turn.safety.height < u64::MAX,
    ensures
        ({
            let (after, flow) = handle_step(
                context,
                turn,
                sender,
                WireModel::Certificate {
                    certificate,
                    transaction_ids: Some(transaction_ids),
                    fee_commitment: Some(fee_commitment),
                },
                now,
            );
            let count = turn.effects.len() as int;
            &&& after.effects.len() == count + 2
            &&& after.effects[count + 1] matches EffectModel::Finalize { order, outcome }
                && order.height == turn.safety.height && order.block_id == certificate.block_id
                && order.transaction_ids == transaction_ids && order.fee_commitment
                == fee_commitment && order.certificate == certificate && flow == Flow::Finish(
                Some(outcome),
            ) && outcome.finalized_height == turn.safety.height && outcome.finalized_block
                == certificate.block_id
            &&& after.safety.height == turn.safety.height + 1
            &&& after.safety.parent_id == certificate.block_id
        }),
{
}

/// Whether an order is certified and commits to what it names, on some parent.
pub open spec fn is_certified_order<S: AggregateSignatureScheme>(
    context: ContextModel<S>,
    order: OrderModel,
) -> bool {
    &&& certificate_check(order.certificate, context.identity.table, context.identity.scheme) is Ok
    &&& order.certificate.kind == CertificateKind::Fast || order.certificate.kind
        == CertificateKind::Commit
    &&& order.height == order.certificate.height
    &&& order.block_id == order.certificate.block_id
    &&& exists|parent: Hash256|
        order.block_id == #[trigger] block_id_of(
            order.height,
            parent,
            order.transaction_ids,
            order.fee_commitment,
        )
}

/// Whatever finalizes, if it does, a certified order that commits to what it names.
spec fn finalizes_certified<S: AggregateSignatureScheme>(context: ContextModel<S>) -> spec_fn(
    EffectModel,
) -> bool {
    |effect: EffectModel|
        effect matches EffectModel::Finalize { order, outcome } ==> is_certified_order(
            context,
            order,
        ) && outcome.finalized_height == order.height && outcome.finalized_block
            == order.block_id
}

/// Whatever message arrives, nothing is finalized but a certified order whose block
/// commits to its transactions and fees.
pub proof fn law_messages_finalize_certified_orders_only<S: AggregateSignatureScheme>(
    context: ContextModel<S>,
    turn: TurnModel,
    sender: Hash256,
    message: WireModel,
    now: u64,
    k: int,
)
    requires
        crate::node::guarantees::undecided(turn.safety),
        turn.effects.len() <= k < handle_step(context, turn, sender, message, now).0.effects.len(),
    ensures
        handle_step(context, turn, sender, message, now).0.effects[k] matches EffectModel::Finalize {
            order,
            outcome,
        } ==> is_certified_order(context, order) && outcome.finalized_height == order.height
            && outcome.finalized_block == order.block_id,
{
    let allowed = finalizes_certified(context);
    let after = handle_step(context, turn, sender, message, now).0;
    match message {
        WireModel::Orders(orders) => {
            lemma_replay_finalizes(context, turn, orders, None);
        },
        WireModel::Certificate { certificate, transaction_ids, fee_commitment } => {
            lemma_certificate_finalizes(
                context,
                turn,
                sender,
                certificate,
                transaction_ids,
                fee_commitment,
                now,
            );
        },
        _ => {
            assert(adds_only(turn.effects, after.effects, allowed)) by {
                reveal(adds_only);
            }
        },
    }
    assert(allowed(after.effects[k])) by {
        reveal(adds_only);
    }
}

proof fn lemma_certificate_finalizes<S: AggregateSignatureScheme>(
    context: ContextModel<S>,
    turn: TurnModel,
    sender: Hash256,
    certificate: CertificateModel,
    transaction_ids: Option<Seq<Hash256>>,
    fee_commitment: Option<Hash256>,
    now: u64,
)
    requires
        crate::node::guarantees::undecided(turn.safety),
    ensures
        adds_only(
            turn.effects,
            certificate_received(
                context,
                turn,
                sender,
                certificate,
                transaction_ids,
                fee_commitment,
                now,
            ).0.effects,
            finalizes_certified(context),
        ),
{
    reveal(adds_only);
    let final_kind = certificate.kind == CertificateKind::Fast || certificate.kind
        == CertificateKind::Commit;
    if final_kind && transaction_ids is Some && fee_commitment is Some {
        let order = OrderModel {
            height: certificate.height,
            block_id: certificate.block_id,
            transaction_ids: transaction_ids.unwrap(),
            fee_commitment: fee_commitment.unwrap(),
            certificate,
        };
        let named = block_id_of(
            order.height,
            turn.safety.parent_id,
            order.transaction_ids,
            order.fee_commitment,
        );
        if named == certificate.block_id && certificate_check(
            certificate,
            context.identity.table,
            context.identity.scheme,
        ) is Ok {
            assert(is_certified_order(context, order));
        }
    }
}

proof fn lemma_replay_finalizes<S: AggregateSignatureScheme>(
    context: ContextModel<S>,
    turn: TurnModel,
    orders: Seq<OrderModel>,
    last: Option<CoordinatorOutcome>,
)
    requires
        crate::node::guarantees::undecided(turn.safety),
    ensures
        adds_only(
            turn.effects,
            replayed(context, turn, orders, last).0.effects,
            finalizes_certified(context),
        ),
    decreases orders.len(),
{
    let allowed = finalizes_certified(context);
    lemma_adds_nothing(turn.effects, allowed);
    if orders.len() > 0 {
        let rest = orders.drop_first();
        if orders[0].height < turn.safety.height {
            lemma_replay_finalizes(context, turn, rest, last);
        } else if replayable(context, turn.safety, orders[0]) {
            let (committed, result) = commit_order_step(context, turn, orders[0], 0);
            assert(adds_only(turn.effects, committed.effects, allowed)) by {
                reveal(adds_only);
                assert(is_certified_order(context, orders[0]));
            }
            if let Ok(outcome) = result {
                lemma_replay_finalizes(context, committed, rest, Some(outcome));
                lemma_adds_more(
                    turn.effects,
                    committed.effects,
                    replayed(context, committed, rest, Some(outcome)).0.effects,
                    allowed,
                );
            }
        }
    }
}

/// A validator that sees a certificate of a later height asks the sender for the orders
/// from its own height on, unless it asked within the last interval; and it answers
/// whoever asks it.
pub proof fn law_validator_behind_asks_and_is_answered<S: AggregateSignatureScheme>(
    context: ContextModel<S>,
    turn: TurnModel,
    sender: Hash256,
    certificate: CertificateModel,
    transaction_ids: Option<Seq<Hash256>>,
    fee_commitment: Option<Hash256>,
    from_height: u64,
    now: u64,
)
    requires
        member(context.identity.table, sender) is Some,
        certificate_check(certificate, context.identity.table, context.identity.scheme) is Ok,
        certificate.height > turn.safety.height,
    ensures
        ({
            let after = handle_step(
                context,
                turn,
                sender,
                WireModel::Certificate { certificate, transaction_ids, fee_commitment },
                now,
            ).0;
            if turn.requested_at is None || now >= turn.requested_at.unwrap() + 200 {
                &&& after.effects == turn.effects.push(
                    EffectModel::Send {
                        peer: sender,
                        message: WireModel::RequestOrders { from_height: turn.safety.height },
                    },
                )
                &&& after.requested_at == Some(now)
                &&& after.safety == turn.safety
            } else {
                after == turn
            }
        }),
        handle_step(context, turn, sender, WireModel::RequestOrders { from_height }, now).0.effects
            == turn.effects.push(EffectModel::ServeOrders { peer: sender, from_height }),
{
}

/// A vote that its own validator sends for this round, and that verifies, is kept with
/// the votes of its phase, unless one of that validator is kept already; any other vote
/// changes nothing.
pub proof fn law_valid_votes_are_kept<S: AggregateSignatureScheme>(
    context: ContextModel<S>,
    turn: TurnModel,
    sender: Hash256,
    vote: VoteModel,
    now: u64,
)
    requires
        ids_ascend(context.identity.table),
    ensures
        ({
            let after = handle_step(context, turn, sender, WireModel::Vote(vote), now).0;
            let valid = sender == vote.validator && is_vote_for(
                context,
                vote,
                turn.safety.height,
                turn.safety.view,
                vote.block_id,
                vote.phase,
            );
            &&& after.effects == turn.effects
            &&& after.safety == turn.safety
            &&& !valid ==> after == turn
            &&& valid && vote.phase == VotePhase::Order ==> after.round.order_votes == (
            if turn.round.order_votes.contains_key(sender) {
                turn.round.order_votes
            } else {
                turn.round.order_votes.insert(sender, vote)
            })
            &&& valid && vote.phase == VotePhase::Commit ==> after.round.commit_votes == (
            if turn.round.commit_votes.contains_key(sender) {
                turn.round.commit_votes
            } else {
                turn.round.commit_votes.insert(sender, vote)
            })
            &&& valid && vote.phase == VotePhase::Timeout && vote.block_id == zero_hash()
                ==> after.round.timeout_votes == (if turn.round.timeout_votes.contains_key(sender) {
                turn.round.timeout_votes
            } else {
                turn.round.timeout_votes.insert(sender, vote)
            })
            &&& vote.phase != VotePhase::Order ==> after.round.order_votes
                == turn.round.order_votes
            &&& vote.phase != VotePhase::Commit ==> after.round.commit_votes
                == turn.round.commit_votes
            &&& vote.phase != VotePhase::Timeout ==> after.round.timeout_votes
                == turn.round.timeout_votes
        }),
{
    let table = context.identity.table;
    if exists|i: int| 0 <= i < table.len() && (#[trigger] table[i]).id == vote.validator {
        let i = choose|i: int| 0 <= i < table.len() && (#[trigger] table[i]).id == vote.validator;
        lemma_member_at(table, i);
        assert forall|j: int|
            0 <= j < table.len() && (#[trigger] table[j]).id == vote.validator implies table[j]
            == table[i] by {
            lemma_member_at(table, j);
        }
    }
    if member(table, vote.validator) is Some {
        let i = choose|i: int| crate::consensus::validators::is_at(table, vote.validator, i);
        assert(table[i].id == vote.validator);
    }
}

/// A proposal that the leader of this round sends is kept, and handed on once; a second
/// block from the same leader is noticed as equivocation.
pub proof fn law_received_proposal_is_kept_and_relayed<S: AggregateSignatureScheme>(
    context: ContextModel<S>,
    turn: TurnModel,
    signed: SignedProposalModel,
    now: u64,
)
    requires
        crate::consensus::proposals::proposal_check(
            signed,
            context.identity.table,
            context.identity.scheme,
        ) is Ok,
        signed.proposal.height == turn.safety.height,
        signed.proposal.view == turn.safety.view,
        !context.faults.withhold_votes,
        turn.round.observed.dom().finite(),
    ensures
        ({
            let after = handle_step(
                context,
                turn,
                signed.proposal.proposer,
                WireModel::Proposal(signed),
                now,
            ).0;
            let id = signed.proposal.block_id;
            &&& after.safety == turn.safety
            &&& after.round.observed == turn.round.observed.insert(id, signed)
            &&& !turn.round.observed.contains_key(id) && !turn.round.relayed.contains(id)
                ==> after.effects == turn.effects.push(
                EffectModel::Broadcast { message: WireModel::Proposal(signed) },
            )
            &&& turn.round.relayed.contains(id) ==> after.effects == turn.effects
            &&& turn.round.observed.dom().len() > 0 && !turn.round.observed.contains_key(id)
                ==> after.round.flags.equivocation_detected
            &&& turn.round.first_proposal_at is None && !turn.round.observed.contains_key(id)
                ==> after.round.first_proposal_at == Some(now)
        }),
{
    let id = signed.proposal.block_id;
    let observed = turn.round.observed;
    assert(observed.insert(id, signed).dom() =~= observed.dom().insert(id));
}

/// Three fifths take the second path: once the fast path had its time and the votes make
/// a prepare certificate, the validator broadcasts it with the proposal's order and then
/// its own vote to commit exactly the prepared block.
pub proof fn law_prepare_certificate_leads_to_commit_votes<S: AggregateSignatureScheme>(
    context: ContextModel<S>,
    turn: TurnModel,
    proposal: ProposalModel,
    now: u64,
    certificate: CertificateModel,
    vote: VoteModel,
)
    requires
        !turn.round.flags.prepare_sent,
        now >= turn.round.started + context.config.fast_path_wait_ms,
        certified(
            context,
            CertificateKind::Prepare,
            turn.safety.height,
            turn.safety.view,
            proposal.block_id,
            turn.round.order_votes,
        ) == Some(certificate),
        !context.faults.withhold_votes,
        !context.faults.corrupt_votes,
        turn.round.commit_vote is None,
        commit_step(turn.safety, context.identity, certificate).1 == Ok::<
            VoteModel,
            ConsensusError,
        >(vote),
    ensures
        ({
            let after = prepare_stage(context, turn, proposal, now);
            let count = turn.effects.len() as int;
            &&& vote.block_id == proposal.block_id
            &&& vote.phase == VotePhase::Commit
            &&& after.effects.len() == count + 3
            &&& after.effects[count] == (EffectModel::Broadcast {
                message: WireModel::Certificate {
                    certificate,
                    transaction_ids: Some(proposal.transaction_ids),
                    fee_commitment: Some(proposal.fee_commitment),
                },
            })
            &&& after.effects[count + 2] == (EffectModel::Broadcast {
                message: WireModel::Vote(vote),
            })
            &&& after.round.commit_votes == turn.round.commit_votes.insert(
                context.identity.id,
                vote,
            )
            &&& after.round.flags.prepare_sent
        }),
{
    law_certificate_is_of_what_was_voted_on(
        context,
        CertificateKind::Prepare,
        turn.safety.height,
        turn.safety.view,
        proposal.block_id,
        turn.round.order_votes,
    );
    crate::consensus::guarantees::law_replica_commits_the_prepared_block(
        turn.safety,
        context.identity,
        certificate,
    );
}

/// A round that outlasts its timeout is given up: a validator that has not voted for a
/// block in it broadcasts a timeout vote, once; before the timeout nothing happens.
pub proof fn law_round_times_out<S: AggregateSignatureScheme>(
    context: ContextModel<S>,
    turn: TurnModel,
    now: u64,
    vote: VoteModel,
)
    requires
        now >= turn.round.started,
        crate::consensus::replica::timeout_step(turn.safety, context.identity).1 == Ok::<
            Option<VoteModel>,
            ConsensusError,
        >(Some(vote)),
    ensures
        ({
            let (after, flow) = timeout_stage(context, turn, now);
            let due = now - turn.round.started >= timeout_of(
                context.config.round_timeout_ms,
                turn.safety.view,
            ) && !turn.round.flags.timeout_sent;
            &&& flow is Continue
            &&& !due ==> after == turn
            &&& due ==> {
                &&& after.effects.len() == turn.effects.len() + 2
                &&& after.effects[turn.effects.len() as int + 1] == (EffectModel::Broadcast {
                    message: WireModel::Vote(vote),
                })
                &&& vote.phase == VotePhase::Timeout
                &&& vote.block_id == zero_hash()
                &&& vote.height == turn.safety.height
                &&& vote.view == turn.safety.view
                &&& after.round.flags.timeout_sent
                &&& after.round.timeout_votes == turn.round.timeout_votes.insert(
                    context.identity.id,
                    vote,
                )
            }
        }),
{
    crate::consensus::guarantees::law_replica_times_out_and_moves_on(
        turn.safety,
        context.identity,
        CertificateModel {
            kind: CertificateKind::Timeout,
            height: turn.safety.height,
            view: turn.safety.view,
            block_id: zero_hash(),
            signers: Seq::empty(),
            signed_stake: 0,
            aggregate_signature: Seq::empty(),
        },
    );
}

/// Enough timeout votes start the next view: the timeout certificate is broadcast, and
/// the validator is in the next view of the same height with an empty round.
pub proof fn law_timeout_certificate_starts_the_next_view<S: AggregateSignatureScheme>(
    context: ContextModel<S>,
    turn: TurnModel,
    now: u64,
    certificate: CertificateModel,
)
    requires
        certified(
            context,
            CertificateKind::Timeout,
            turn.safety.height,
            turn.safety.view,
            zero_hash(),
            turn.round.timeout_votes,
        ) == Some(certificate),
        certificate_check(certificate, context.identity.table, context.identity.scheme) is Ok,
        turn.safety.view < u64::MAX,
    ensures
        ({
            let (after, flow) = advance_stage(context, turn, now);
            &&& flow is Continue
            &&& after.effects.len() == turn.effects.len() + 2
            &&& after.effects[turn.effects.len() as int] == (EffectModel::Broadcast {
                message: WireModel::Certificate {
                    certificate,
                    transaction_ids: None,
                    fee_commitment: None,
                },
            })
            &&& after.safety.view == turn.safety.view + 1
            &&& after.safety.height == turn.safety.height
            &&& after.safety.lock == turn.safety.lock
            &&& after.round.started == now
            &&& after.round.proposal is None
            &&& after.round.observed == Map::<Hash256, SignedProposalModel>::empty()
            &&& after.round.order_votes == Map::<Hash256, VoteModel>::empty()
            &&& after.round.commit_votes == Map::<Hash256, VoteModel>::empty()
            &&& after.round.timeout_votes == Map::<Hash256, VoteModel>::empty()
            &&& !after.round.flags.timeout_sent
            &&& !after.round.flags.proposal_vote_sent
        }),
{
    law_certificate_is_of_what_was_voted_on(
        context,
        CertificateKind::Timeout,
        turn.safety.height,
        turn.safety.view,
        zero_hash(),
        turn.round.timeout_votes,
    );
}

} // verus!
