//! What holds of every turn of a coordinator, whatever its peers send.

use vstd::prelude::*;

use crate::consensus::certificates::{certificate_check, CertificateKind, CertificateModel};
use crate::consensus::proposals::{OrderModel, ProposalModel, SignedProposalModel};
use crate::consensus::replica::{
    advance_step, cast, commit_step, finalize_step, locked, order_step, timeout_step,
    ReplicaIdentity, SafetyState, VoteSlot,
};
use crate::consensus::votes::{VoteModel, VotePhase};
use crate::crypto::AggregateSignatureScheme;
use crate::node::coordinator::{
    advance_stage, alternating, build_step, certificate_step, certify_stage, commit_order_step,
    finish_step, handle_step, order_vote_step, persisted, prepare_stage, prepare_step,
    propose_stage, replayed, resend_commit_stage, resend_order_stage, tick_step, timeout_of,
    timeout_stage, view_change_step, vote_stage, with_effect, ContextModel, ReplyModel, TurnModel,
};
use crate::node::round::{
    fresh_round, since, CoordinatorOutcome, EffectModel, RoundModel, WireModel,
};
use crate::types::Hash256;

verus! {

/// What is on disk after effects were performed.
pub open spec fn stored_after(stored: SafetyState, effects: Seq<EffectModel>) -> SafetyState
    decreases effects.len(),
{
    if effects.len() == 0 {
        stored
    } else {
        match effects.last() {
            EffectModel::Persist { state } => state,
            _ => stored_after(stored, effects.drop_last()),
        }
    }
}

/// Whether safety state knows of a vote.
pub open spec fn records(state: SafetyState, vote: VoteModel) -> bool {
    let slot = VoteSlot { height: vote.height, view: vote.view, phase: vote.phase };
    state.votes.contains_key(slot) && state.votes[slot] == vote.block_id
}

/// Whether an effect is one that a safe validator may have, given what is on
/// disk: a vote that it broadcasts is on disk, and an order that it finalizes
/// carries a valid final certificate.
pub open spec fn sound_effect<S: AggregateSignatureScheme>(
    context: ContextModel<S>,
    stored: SafetyState,
    effect: EffectModel,
) -> bool {
    match effect {
        EffectModel::Broadcast { message: WireModel::Vote(vote) } => records(stored, vote),
        EffectModel::Finalize { order, outcome } => {
            &&& certificate_check(
                order.certificate,
                context.identity.table,
                context.identity.scheme,
            ) is Ok
            &&& order.certificate.kind == CertificateKind::Fast || order.certificate.kind
                == CertificateKind::Commit
            &&& outcome.finalized_height == order.height
            &&& outcome.finalized_block == order.certificate.block_id
        },
        _ => true,
    }
}

/// Whether every effect is sound, performed in order.
pub open spec fn sound_effects<S: AggregateSignatureScheme>(
    context: ContextModel<S>,
    stored: SafetyState,
    effects: Seq<EffectModel>,
) -> bool
    decreases effects.len(),
{
    effects.len() == 0 || {
        &&& sound_effects(context, stored, effects.drop_last())
        &&& sound_effect(context, stored_after(stored, effects.drop_last()), effects.last())
    }
}

/// Whether the votes that a round resends are on disk.
pub open spec fn resends_stored(round: RoundModel, stored: SafetyState) -> bool {
    &&& round.proposal_vote matches Some(vote) ==> records(stored, vote)
    &&& round.commit_vote matches Some(vote) ==> records(stored, vote)
}

/// Whether every vote that one state knows of stands in another.
pub open spec fn keeps_votes(earlier: SafetyState, later: SafetyState) -> bool {
    forall|slot: VoteSlot| #[trigger]
        earlier.votes.contains_key(slot) ==> later.votes.contains_key(slot) && later.votes[slot]
            == earlier.votes[slot]
}

/// What holds throughout a turn that began with `start` in memory and `stored`
/// on disk.
pub open spec fn sound_turn<S: AggregateSignatureScheme>(
    context: ContextModel<S>,
    start: SafetyState,
    stored: SafetyState,
    turn: TurnModel,
) -> bool {
    &&& sound_effects(context, stored, turn.effects)
    &&& resends_stored(turn.round, stored_after(stored, turn.effects))
    &&& keeps_votes(stored_after(stored, turn.effects), turn.safety)
    &&& keeps_votes(start, turn.safety)
}

proof fn lemma_effect<S: AggregateSignatureScheme>(
    context: ContextModel<S>,
    stored: SafetyState,
    effects: Seq<EffectModel>,
    effect: EffectModel,
)
    requires
        sound_effects(context, stored, effects),
        sound_effect(context, stored_after(stored, effects), effect),
    ensures
        sound_effects(context, stored, effects.push(effect)),
        stored_after(stored, effects.push(effect)) == (match effect {
            EffectModel::Persist { state } => state,
            _ => stored_after(stored, effects),
        }),
{
    assert(effects.push(effect).drop_last() =~= effects);
}

proof fn lemma_alternating<S: AggregateSignatureScheme>(
    context: ContextModel<S>,
    stored: SafetyState,
    effects: Seq<EffectModel>,
    recipients: Seq<Hash256>,
    first: SignedProposalModel,
    second: SignedProposalModel,
)
    requires
        sound_effects(context, stored, effects),
    ensures
        sound_effects(context, stored, effects + alternating(recipients, first, second)),
        stored_after(stored, effects + alternating(recipients, first, second)) == stored_after(
            stored,
            effects,
        ),
    decreases recipients.len(),
{
    let sent = alternating(recipients, first, second);
    if recipients.len() == 0 {
        assert(effects + sent =~= effects);
    } else {
        let shorter = recipients.drop_last();
        lemma_alternating(context, stored, effects, shorter, first, second);
        let earlier = effects + alternating(shorter, first, second);
        lemma_effect(context, stored, earlier, sent.last());
        assert(effects + sent =~= earlier.push(sent.last()));
    }
}

proof fn lemma_cast<S: AggregateSignatureScheme>(
    state: SafetyState,
    identity: ReplicaIdentity<S>,
    block_id: Hash256,
    phase: VotePhase,
)
    ensures
        keeps_votes(state, cast(state, identity, block_id, phase).0),
        cast(state, identity, block_id, phase).1 matches Ok(vote) ==> records(
            cast(state, identity, block_id, phase).0,
            vote,
        ),
        cast(state, identity, block_id, phase).0.height == state.height,
        cast(state, identity, block_id, phase).0.view == state.view,
        cast(state, identity, block_id, phase).0.parent_id == state.parent_id,
{
}

proof fn lemma_order_vote<S: AggregateSignatureScheme>(
    context: ContextModel<S>,
    start: SafetyState,
    stored: SafetyState,
    turn: TurnModel,
    proposal: ProposalModel,
    corrupt: bool,
)
    requires
        sound_turn(context, start, stored, turn),
    ensures
        sound_turn(context, start, stored, order_vote_step(context, turn, proposal, corrupt)),
{
    let (safety, result) = order_step(turn.safety, context.identity, proposal);
    lemma_cast(turn.safety, context.identity, proposal.block_id, VotePhase::Order);
    if result is Ok {
        lemma_effect(context, stored, turn.effects, EffectModel::Persist { state: safety });
    }
}

proof fn lemma_propose<S: AggregateSignatureScheme>(
    context: ContextModel<S>,
    start: SafetyState,
    stored: SafetyState,
    turn: TurnModel,
    now: u64,
    reply: ReplyModel,
)
    requires
        sound_turn(context, start, stored, turn),
    ensures
        sound_turn(context, start, stored, propose_stage(context, turn, now, reply).0),
{
    if crate::node::coordinator::equivocates(context, turn.safety, turn.round, now) {
        let first = crate::node::coordinator::made_up(context, turn.safety, "equivocation-a");
        let second = crate::node::coordinator::made_up(context, turn.safety, "equivocation-b");
        if first is Ok && second is Ok {
            lemma_alternating(
                context,
                stored,
                turn.effects,
                crate::node::coordinator::others(
                    crate::ordered::sorted_keys(context.peers),
                    context.identity.id,
                ),
                first.unwrap(),
                second.unwrap(),
            );
        }
    } else if crate::node::coordinator::may_propose(context, turn.safety, turn.round, now) {
        let built = if turn.round.proposal is None {
            lemma_build(context, start, stored, turn, now, reply);
            build_step(context, turn, now, reply).0
        } else {
            turn
        };
        if let Some(signed) = built.round.proposal {
            lemma_effect(
                context,
                stored,
                built.effects,
                EffectModel::Broadcast { message: WireModel::Proposal(signed) },
            );
        }
    }
}

proof fn lemma_build<S: AggregateSignatureScheme>(
    context: ContextModel<S>,
    start: SafetyState,
    stored: SafetyState,
    turn: TurnModel,
    now: u64,
    reply: ReplyModel,
)
    requires
        sound_turn(context, start, stored, turn),
    ensures
        sound_turn(context, start, stored, build_step(context, turn, now, reply).0),
{
    if let Some((ids, commitment)) = reply.order {
        let proposal = crate::node::coordinator::proposed(context, turn.safety, ids, commitment);
        let result = crate::consensus::proposals::signed_proposal(
            proposal,
            context.identity.private_key,
            context.identity.scheme,
        );
        if let Ok(signed) = result {
            let made = TurnModel {
                round: RoundModel { proposal: Some(signed), ..turn.round },
                ..turn
            };
            lemma_order_vote(context, start, stored, made, proposal, false);
        }
    }
}

proof fn lemma_vote_stages<S: AggregateSignatureScheme>(
    context: ContextModel<S>,
    start: SafetyState,
    stored: SafetyState,
    turn: TurnModel,
    now: u64,
)
    requires
        sound_turn(context, start, stored, turn),
    ensures
        sound_turn(context, start, stored, vote_stage(context, turn, now)),
        sound_turn(context, start, stored, resend_order_stage(context, turn, now)),
        sound_turn(context, start, stored, resend_commit_stage(context, turn, now)),
{
    if crate::node::coordinator::votes_now(context, turn, now) {
        let proposal = crate::node::round::first_value(turn.round.observed).unwrap().proposal;
        let marked = TurnModel {
            round: RoundModel {
                flags: crate::node::round::RoundFlags {
                    proposal_vote_sent: true,
                    ..turn.round.flags
                },
                ..turn.round
            },
            ..turn
        };
        lemma_order_vote(context, start, stored, marked, proposal, context.faults.corrupt_votes);
    }
    if let Some(vote) = turn.round.proposal_vote {
        lemma_effect(
            context,
            stored,
            turn.effects,
            EffectModel::Broadcast { message: WireModel::Vote(vote) },
        );
    }
    if let Some(vote) = turn.round.commit_vote {
        lemma_effect(
            context,
            stored,
            turn.effects,
            EffectModel::Broadcast { message: WireModel::Vote(vote) },
        );
    }
}

/// Whether the current height is still open.
pub open spec fn undecided(state: SafetyState) -> bool {
    forall|height: u64| #[trigger] state.finalized.contains_key(height) ==> height < state.height
}

proof fn lemma_commit_order<S: AggregateSignatureScheme>(
    context: ContextModel<S>,
    start: SafetyState,
    stored: SafetyState,
    turn: TurnModel,
    order: OrderModel,
    latency_ms: u64,
)
    requires
        sound_turn(context, start, stored, turn),
        undecided(turn.safety),
        order.certificate.height == turn.safety.height,
    ensures
        sound_turn(context, start, stored, commit_order_step(context, turn, order, latency_ms).0),
        commit_order_step(context, turn, order, latency_ms).1 is Ok ==> undecided(
            commit_order_step(context, turn, order, latency_ms).0.safety,
        ),
{
    let (safety, result) = finalize_step(turn.safety, context.identity, order.certificate);
    if result is Ok {
        lemma_effect(context, stored, turn.effects, EffectModel::Persist { state: safety });
        let outcome = commit_order_step(context, turn, order, latency_ms).1.unwrap();
        lemma_effect(
            context,
            stored,
            persisted(turn, safety).effects,
            EffectModel::Finalize { order, outcome },
        );
    }
}

proof fn lemma_certificate_step<S: AggregateSignatureScheme>(
    context: ContextModel<S>,
    start: SafetyState,
    stored: SafetyState,
    turn: TurnModel,
    certificate: CertificateModel,
    transaction_ids: Seq<Hash256>,
    fee_commitment: Hash256,
    now: u64,
)
    requires
        sound_turn(context, start, stored, turn),
        undecided(turn.safety),
    ensures
        ({
            let (after, flow) = certificate_step(
                context,
                turn,
                certificate,
                transaction_ids,
                fee_commitment,
                now,
            );
            sound_turn(context, start, stored, after) && (flow is Fail || undecided(after.safety))
        }),
{
    if certificate.height == turn.safety.height {
        let order = OrderModel {
            height: certificate.height,
            block_id: certificate.block_id,
            transaction_ids,
            fee_commitment,
            certificate,
        };
        lemma_commit_order(
            context,
            start,
            stored,
            turn,
            order,
            since(now, turn.round.height_started),
        );
    }
}

proof fn lemma_prepare_step<S: AggregateSignatureScheme>(
    context: ContextModel<S>,
    start: SafetyState,
    stored: SafetyState,
    turn: TurnModel,
    certificate: CertificateModel,
    now: u64,
)
    requires
        sound_turn(context, start, stored, turn),
        undecided(turn.safety),
    ensures
        sound_turn(context, start, stored, prepare_step(context, turn, certificate, now)),
        undecided(prepare_step(context, turn, certificate, now).safety),
        prepare_step(context, turn, certificate, now).safety.view == turn.safety.view,
        prepare_step(context, turn, certificate, now).round.started == turn.round.started,
        prepare_step(context, turn, certificate, now).round.flags == turn.round.flags,
{
    let (safety, result) = commit_step(turn.safety, context.identity, certificate);
    lemma_cast(
        locked(turn.safety, certificate),
        context.identity,
        certificate.block_id,
        VotePhase::Commit,
    );
    if let Ok(signed) = result {
        let vote = crate::node::coordinator::sent_vote(context.faults.corrupt_votes, signed);
        lemma_effect(context, stored, turn.effects, EffectModel::Persist { state: safety });
        lemma_effect(
            context,
            stored,
            persisted(turn, safety).effects,
            EffectModel::Broadcast { message: WireModel::Vote(vote) },
        );
    }
}

proof fn lemma_certify<S: AggregateSignatureScheme>(
    context: ContextModel<S>,
    start: SafetyState,
    stored: SafetyState,
    turn: TurnModel,
    now: u64,
)
    requires
        sound_turn(context, start, stored, turn),
        undecided(turn.safety),
    ensures
        ({
            let (after, flow) = certify_stage(context, turn, now);
            &&& sound_turn(context, start, stored, after)
            &&& flow is Fail || undecided(after.safety)
            &&& flow is Continue ==> after.safety.view == turn.safety.view && after.round.started
                == turn.round.started && after.round.flags.timeout_sent
                == turn.round.flags.timeout_sent
        }),
{
    if let Some(signed) = crate::node::round::certifiable(turn.round) {
        let proposal = signed.proposal;
        let fast = crate::node::coordinator::certified(
            context,
            CertificateKind::Fast,
            turn.safety.height,
            turn.safety.view,
            proposal.block_id,
            turn.round.order_votes,
        );
        if let Some(certificate) = fast {
            lemma_finish(context, start, stored, turn, certificate, proposal, now);
        } else {
            lemma_prepare_stage(context, start, stored, turn, proposal, now);
            let prepared = prepare_stage(context, turn, proposal, now);
            let commit = crate::node::coordinator::certified(
                context,
                CertificateKind::Commit,
                turn.safety.height,
                turn.safety.view,
                proposal.block_id,
                prepared.round.commit_votes,
            );
            if let Some(certificate) = commit {
                lemma_finish(context, start, stored, prepared, certificate, proposal, now);
            }
        }
    }
}

proof fn lemma_finish<S: AggregateSignatureScheme>(
    context: ContextModel<S>,
    start: SafetyState,
    stored: SafetyState,
    turn: TurnModel,
    certificate: CertificateModel,
    proposal: ProposalModel,
    now: u64,
)
    requires
        sound_turn(context, start, stored, turn),
        undecided(turn.safety),
    ensures
        ({
            let (after, flow) = finish_step(context, turn, certificate, proposal, now);
            sound_turn(context, start, stored, after) && !(flow is Continue) && (flow is Fail
                || undecided(after.safety))
        }),
{
    let message = crate::node::coordinator::certificate_message(certificate, proposal);
    lemma_effect(context, stored, turn.effects, message);
    lemma_certificate_step(
        context,
        start,
        stored,
        with_effect(turn, message),
        certificate,
        proposal.transaction_ids,
        proposal.fee_commitment,
        now,
    );
}

proof fn lemma_prepare_stage<S: AggregateSignatureScheme>(
    context: ContextModel<S>,
    start: SafetyState,
    stored: SafetyState,
    turn: TurnModel,
    proposal: ProposalModel,
    now: u64,
)
    requires
        sound_turn(context, start, stored, turn),
        undecided(turn.safety),
    ensures
        ({
            let after = prepare_stage(context, turn, proposal, now);
            &&& sound_turn(context, start, stored, after)
            &&& undecided(after.safety)
            &&& after.safety.view == turn.safety.view
            &&& after.round.started == turn.round.started
            &&& after.round.flags.timeout_sent == turn.round.flags.timeout_sent
        }),
{
    let prepare = crate::node::coordinator::certified(
        context,
        CertificateKind::Prepare,
        turn.safety.height,
        turn.safety.view,
        proposal.block_id,
        turn.round.order_votes,
    );
    if let Some(certificate) = prepare {
        let marked = TurnModel {
            round: RoundModel {
                flags: crate::node::round::RoundFlags { prepare_sent: true, ..turn.round.flags },
                ..turn.round
            },
            ..turn
        };
        let message = crate::node::coordinator::certificate_message(certificate, proposal);
        lemma_effect(context, stored, marked.effects, message);
        lemma_prepare_step(
            context,
            start,
            stored,
            with_effect(marked, message),
            certificate,
            now,
        );
    }
}

proof fn lemma_timeout<S: AggregateSignatureScheme>(
    context: ContextModel<S>,
    start: SafetyState,
    stored: SafetyState,
    turn: TurnModel,
    now: u64,
)
    requires
        sound_turn(context, start, stored, turn),
        undecided(turn.safety),
    ensures
        ({
            let (after, flow) = timeout_stage(context, turn, now);
            &&& sound_turn(context, start, stored, after)
            &&& undecided(after.safety)
            &&& !(flow is Finish)
            &&& since(now, turn.round.started) >= timeout_of(
                context.config.round_timeout_ms,
                turn.safety.view,
            ) ==> after.round.flags.timeout_sent
        }),
{
    lemma_cast(
        turn.safety,
        context.identity,
        crate::types::zero_hash(),
        VotePhase::Timeout,
    );
    let (safety, result) = timeout_step(turn.safety, context.identity);
    if let Ok(Some(vote)) = result {
        lemma_effect(context, stored, turn.effects, EffectModel::Persist { state: safety });
        lemma_effect(
            context,
            stored,
            persisted(turn, safety).effects,
            EffectModel::Broadcast { message: WireModel::Vote(vote) },
        );
    }
}

proof fn lemma_view_change<S: AggregateSignatureScheme>(
    context: ContextModel<S>,
    start: SafetyState,
    stored: SafetyState,
    turn: TurnModel,
    certificate: CertificateModel,
    now: u64,
)
    requires
        sound_turn(context, start, stored, turn),
        undecided(turn.safety),
    ensures
        sound_turn(context, start, stored, view_change_step(context, turn, certificate, now).0),
        undecided(view_change_step(context, turn, certificate, now).0.safety),
{
    let (safety, result) = advance_step(turn.safety, context.identity, certificate);
    if result is Ok {
        lemma_effect(context, stored, turn.effects, EffectModel::Persist { state: safety });
    }
}

proof fn lemma_advance<S: AggregateSignatureScheme>(
    context: ContextModel<S>,
    start: SafetyState,
    stored: SafetyState,
    turn: TurnModel,
    now: u64,
)
    requires
        sound_turn(context, start, stored, turn),
        undecided(turn.safety),
    ensures
        ({
            let (after, flow) = advance_stage(context, turn, now);
            &&& sound_turn(context, start, stored, after)
            &&& undecided(after.safety)
            &&& flow is Continue ==> after.round == turn.round || after.round == fresh_round(
                now,
                false,
            )
        }),
{
    let formed = crate::node::coordinator::certified(
        context,
        CertificateKind::Timeout,
        turn.safety.height,
        turn.safety.view,
        crate::types::zero_hash(),
        turn.round.timeout_votes,
    );
    if let Some(certificate) = formed {
        let effect = EffectModel::Broadcast {
            message: WireModel::Certificate {
                certificate,
                transaction_ids: None,
                fee_commitment: None,
            },
        };
        lemma_effect(context, stored, turn.effects, effect);
        lemma_view_change(context, start, stored, with_effect(turn, effect), certificate, now);
    }
}

/// Whatever the clock and the proposal source say, a tick keeps a validator safe:
/// it broadcasts a vote only when that vote is on disk, it finalizes only what a
/// valid final certificate decides, and it takes back no vote that it has cast.
/// The same holds at the next turn, with what is then on disk.
pub proof fn law_tick_is_safe<S: AggregateSignatureScheme>(
    context: ContextModel<S>,
    stored: SafetyState,
    turn: TurnModel,
    now: u64,
    reply: ReplyModel,
)
    requires
        turn.effects.len() == 0,
        resends_stored(turn.round, stored),
        keeps_votes(stored, turn.safety),
        undecided(turn.safety),
    ensures
        ({
            let (after, flow) = tick_step(context, turn, now, reply);
            &&& sound_effects(context, stored, after.effects)
            &&& resends_stored(after.round, stored_after(stored, after.effects))
            &&& keeps_votes(stored_after(stored, after.effects), after.safety)
            &&& keeps_votes(turn.safety, after.safety)
            &&& flow is Fail || undecided(after.safety)
        }),
{
    let start = turn.safety;
    lemma_propose(context, start, stored, turn, now, reply);
    let (proposed, flow) = propose_stage(context, turn, now, reply);
    lemma_propose_frame(context, turn, now, reply);
    if !(flow is Fail) {
        lemma_vote_stages(context, start, stored, proposed, now);
        let voting = vote_stage(context, proposed, now);
        lemma_vote_frame(context, proposed, now);
        lemma_vote_stages(context, start, stored, voting, now);
        let voted = resend_order_stage(context, voting, now);
        lemma_certify(context, start, stored, voted, now);
        let (certified, flow) = certify_stage(context, voted, now);
        if flow is Continue {
            lemma_vote_stages(context, start, stored, certified, now);
            let resent = resend_commit_stage(context, certified, now);
            lemma_timeout(context, start, stored, resent, now);
            let (timed, flow) = timeout_stage(context, resent, now);
            if !(flow is Fail) {
                lemma_advance(context, start, stored, timed, now);
            }
        }
    }
}

proof fn lemma_propose_frame<S: AggregateSignatureScheme>(
    context: ContextModel<S>,
    turn: TurnModel,
    now: u64,
    reply: ReplyModel,
)
    ensures
        ({
            let after = propose_stage(context, turn, now, reply).0;
            &&& after.safety.finalized == turn.safety.finalized
            &&& after.safety.height == turn.safety.height
            &&& after.safety.view == turn.safety.view
            &&& after.round.started == turn.round.started
            &&& after.round.flags.timeout_sent == turn.round.flags.timeout_sent
        }),
{
}

proof fn lemma_vote_frame<S: AggregateSignatureScheme>(
    context: ContextModel<S>,
    turn: TurnModel,
    now: u64,
)
    ensures
        ({
            let after = vote_stage(context, turn, now);
            &&& after.safety.finalized == turn.safety.finalized
            &&& after.safety.height == turn.safety.height
            &&& after.safety.view == turn.safety.view
            &&& after.round.started == turn.round.started
            &&& after.round.flags.timeout_sent == turn.round.flags.timeout_sent
        }),
{
}

/// Nothing suppresses the pacemaker: a tick past the round timeout that neither
/// fails nor finalizes leaves a validator that has asked for a timeout vote, or
/// one in a new round.
pub proof fn law_pacemaker_is_never_suppressed<S: AggregateSignatureScheme>(
    context: ContextModel<S>,
    turn: TurnModel,
    now: u64,
    reply: ReplyModel,
)
    requires
        since(now, turn.round.started) >= timeout_of(
            context.config.round_timeout_ms,
            turn.safety.view,
        ),
        undecided(turn.safety),
        tick_step(context, turn, now, reply).1 is Continue,
    ensures
        ({
            let after = tick_step(context, turn, now, reply).0;
            after.round.flags.timeout_sent || after.round == fresh_round(now, false)
        }),
{
    let (proposed, flow) = propose_stage(context, turn, now, reply);
    lemma_propose_frame(context, turn, now, reply);
    lemma_vote_frame(context, proposed, now);
    let voted = resend_order_stage(context, vote_stage(context, proposed, now), now);
    lemma_certify_frame(context, voted, now);
}

proof fn lemma_certify_frame<S: AggregateSignatureScheme>(
    context: ContextModel<S>,
    turn: TurnModel,
    now: u64,
)
    ensures
        ({
            let (after, flow) = certify_stage(context, turn, now);
            flow is Continue ==> after.safety.view == turn.safety.view && after.round.started
                == turn.round.started
        }),
{
}

/// Whatever message arrives from whomever, handling it keeps a validator safe:
/// it broadcasts a vote only when that vote is on disk, it finalizes only what a
/// valid final certificate decides, and it takes back no vote that it has cast.
pub proof fn law_message_is_safe<S: AggregateSignatureScheme>(
    context: ContextModel<S>,
    stored: SafetyState,
    turn: TurnModel,
    sender: Hash256,
    message: WireModel,
    now: u64,
)
    requires
        turn.effects.len() == 0,
        resends_stored(turn.round, stored),
        keeps_votes(stored, turn.safety),
        undecided(turn.safety),
    ensures
        ({
            let (after, flow) = handle_step(context, turn, sender, message, now);
            &&& sound_effects(context, stored, after.effects)
            &&& resends_stored(after.round, stored_after(stored, after.effects))
            &&& keeps_votes(stored_after(stored, after.effects), after.safety)
            &&& keeps_votes(turn.safety, after.safety)
            &&& flow is Fail || undecided(after.safety)
        }),
{
    let start = turn.safety;
    match message {
        WireModel::Proposal(signed) => {
            lemma_effect(
                context,
                stored,
                turn.effects,
                EffectModel::Broadcast { message: WireModel::Proposal(signed) },
            );
        },
        WireModel::Vote(vote) => {},
        WireModel::Certificate { certificate, transaction_ids, fee_commitment } => {
            lemma_effect(
                context,
                stored,
                turn.effects,
                EffectModel::Send {
                    peer: sender,
                    message: WireModel::RequestOrders { from_height: turn.safety.height },
                },
            );
            lemma_prepare_step(context, start, stored, turn, certificate, now);
            lemma_view_change(context, start, stored, turn, certificate, now);
            if transaction_ids is Some && fee_commitment is Some {
                lemma_certificate_step(
                    context,
                    start,
                    stored,
                    turn,
                    certificate,
                    transaction_ids.unwrap(),
                    fee_commitment.unwrap(),
                    now,
                );
            }
        },
        WireModel::RequestOrders { from_height } => {
            lemma_effect(
                context,
                stored,
                turn.effects,
                EffectModel::ServeOrders { peer: sender, from_height },
            );
        },
        WireModel::Orders(orders) => {
            lemma_replay(context, start, stored, turn, orders, None);
        },
    }
}

proof fn lemma_replay<S: AggregateSignatureScheme>(
    context: ContextModel<S>,
    start: SafetyState,
    stored: SafetyState,
    turn: TurnModel,
    orders: Seq<OrderModel>,
    last: Option<CoordinatorOutcome>,
)
    requires
        sound_turn(context, start, stored, turn),
        undecided(turn.safety),
    ensures
        ({
            let (after, result) = replayed(context, turn, orders, last);
            sound_turn(context, start, stored, after) && (result is Err || undecided(after.safety))
        }),
    decreases orders.len(),
{
    if orders.len() > 0 {
        let rest = orders.drop_first();
        if orders[0].height < turn.safety.height {
            lemma_replay(context, start, stored, turn, rest, last);
        } else if crate::node::coordinator::replayable(context, turn.safety, orders[0]) {
            lemma_commit_order(context, start, stored, turn, orders[0], 0);
            let (committed, result) = commit_order_step(context, turn, orders[0], 0);
            if let Ok(outcome) = result {
                lemma_replay(context, start, stored, committed, rest, Some(outcome));
            }
        }
    }
}

/// Replaying orders never goes back, and every order that is applied is the next
/// height's: the height grows by one per finalized order.
pub proof fn law_replay_is_contiguous<S: AggregateSignatureScheme>(
    context: ContextModel<S>,
    turn: TurnModel,
    orders: Seq<OrderModel>,
    last: Option<CoordinatorOutcome>,
)
    requires
        undecided(turn.safety),
        replayed(context, turn, orders, last).1 is Ok,
    ensures
        ({
            let after = replayed(context, turn, orders, last).0;
            &&& after.safety.height >= turn.safety.height
            &&& after.safety.height - turn.safety.height == (after.effects.len()
                - turn.effects.len()) / 2
            &&& (after.effects.len() - turn.effects.len()) % 2 == 0
            &&& turn.effects.is_prefix_of(after.effects)
        }),
    decreases orders.len(),
{
    if orders.len() > 0 {
        let rest = orders.drop_first();
        if orders[0].height < turn.safety.height {
            law_replay_is_contiguous(context, turn, rest, last);
        } else if crate::node::coordinator::replayable(context, turn.safety, orders[0]) {
            let (committed, result) = commit_order_step(context, turn, orders[0], 0);
            if let Ok(outcome) = result {
                law_replay_is_contiguous(context, committed, rest, Some(outcome));
            }
        }
    }
}

} // verus!
