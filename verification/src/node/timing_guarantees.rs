//! What a validator does when: how often it repeats itself, how long it waits, and what
//! injected faults make of it.

use vstd::prelude::*;

use crate::bytes::text_bytes;
use crate::consensus::certificates::{certificate_check, CertificateModel};
use crate::consensus::proposals::SignedProposalModel;
use crate::consensus::validators::member;
use crate::consensus::votes::{vote_check, VoteModel, VotePhase};
use crate::crypto::AggregateSignatureScheme;
use crate::node::coordinator::{
    build_step, certify_stage, equivocates, handle_step, leads, others, prepare_stage,
    propose_stage, resend_commit_stage, resend_order_stage, sent_vote, view_change_step, vote_stage,
    CertificateEmission, ContextModel, Flow, ReplyModel, TurnModel,
};
use crate::node::round::{
    certifiable, first_value, fresh_round, since, EffectModel, RoundModel, WireModel,
};
use crate::ordered::{lemma_sorted_keys_of_finite, sorted_keys, SortKey};
use crate::types::{hash_of, zero_hash, Hash256};

verus! {

/// Time that has passed since a point is never negative: a clock behind that point gives
/// none, and later clocks give as much more as they are later.
pub proof fn law_time_passes(now: u64, later: u64, point: u64)
    requires
        point <= now <= later,
    ensures
        point + since(now, point) == now,
        since(later, point) - since(now, point) == later - now,
        since(point, now) == 0,
{
}

/// A new round has seen and sent nothing, and begins now.
pub proof fn law_new_round_is_empty(now: u64, follows_commit: bool)
    ensures
        ({
            let round = fresh_round(now, follows_commit);
            &&& round.started == now
            &&& round.height_started == now
            &&& round.follows_commit == follows_commit
            &&& round.proposal is None
            &&& round.proposal_vote is None
            &&& round.commit_vote is None
            &&& round.first_proposal_at is None
            &&& round.last_proposal_vote_sent is None
            &&& round.last_commit_vote_sent is None
            &&& round.observed.dom().len() == 0
            &&& round.relayed.len() == 0
            &&& round.order_votes.dom().len() == 0
            &&& round.commit_votes.dom().len() == 0
            &&& round.timeout_votes.dom().len() == 0
            &&& !round.flags.prepare_sent
            &&& !round.flags.timeout_sent
            &&& !round.flags.equivocation_sent
            &&& !round.flags.equivocation_detected
            &&& !round.flags.proposal_vote_sent
        }),
{
}

/// An empty block waits a moment after a commit for transactions on their way, fifteen
/// milliseconds of it, and no other block waits.
pub proof fn law_empty_blocks_wait_a_moment<S: AggregateSignatureScheme>(
    context: ContextModel<S>,
    turn: TurnModel,
    now: u64,
    reply: ReplyModel,
)
    requires
        now >= turn.round.height_started,
    ensures
        turn.round.follows_commit && reply.is_empty && now < turn.round.height_started + 15
            ==> build_step(context, turn, now, reply) == (turn, Flow::Continue),
        !turn.round.follows_commit || !reply.is_empty || now >= turn.round.height_started + 15 ==> ({
            let (built, flow) = build_step(context, turn, now, reply);
            reply.order is Some && !(flow is Fail) ==> built.round.proposal is Some
        }),
{
}

/// The others are everyone on a list but one, each as often and in the order of the list.
pub proof fn law_others_are_everyone_else(peers: Seq<Hash256>, id: Hash256, peer: Hash256)
    ensures
        others(peers, id).contains(peer) <==> peers.contains(peer) && peer != id,
        peers.no_duplicates() ==> others(peers, id).no_duplicates(),
        !peers.contains(id) ==> others(peers, id) == peers,
    decreases peers.len(),
{
    if peers.len() > 0 {
        let shorter = peers.drop_last();
        let last = peers.last();
        law_others_are_everyone_else(shorter, id, peer);
        law_others_are_everyone_else(shorter, id, last);
        let earlier = others(shorter, id);
        let all = others(peers, id);
        assert(peers[peers.len() - 1] == last);
        if shorter.contains(peer) {
            let k = choose|k: int| 0 <= k < shorter.len() && shorter[k] == peer;
            assert(peers[k] == peer);
        }
        if shorter.contains(id) {
            let k = choose|k: int| 0 <= k < shorter.len() && shorter[k] == id;
            assert(peers[k] == id);
        }
        if peers.contains(peer) && peer != last {
            let k = choose|k: int| 0 <= k < peers.len() && peers[k] == peer;
            assert(shorter[k] == peer);
        }
        if last != id {
            assert(all == earlier.push(last));
            if earlier.contains(peer) {
                let k = choose|k: int| 0 <= k < earlier.len() && earlier[k] == peer;
                assert(all[k] == peer);
            }
            assert(all[earlier.len() as int] == last);
            if all.contains(peer) && peer != last {
                let k = choose|k: int| 0 <= k < all.len() && all[k] == peer;
                assert(earlier[k] == peer);
            }
            if !peers.contains(id) {
                assert(all =~= peers);
            }
        } else {
            assert(peers.contains(id));
        }
        if peers.no_duplicates() {
            assert(!shorter.contains(last)) by {
                if shorter.contains(last) {
                    let k = choose|k: int| 0 <= k < shorter.len() && shorter[k] == last;
                    assert(peers[k] == peers[peers.len() - 1]);
                }
            }
            assert(shorter.no_duplicates());
        }
    } else {
        assert(others(peers, id) =~= peers);
    }
}

/// A corrupt vote differs from the one that was signed in the first byte of its signature
/// and in nothing else; a vote that is not to be corrupted is sent as it is.
pub proof fn law_corrupt_votes_carry_a_wrong_signature(corrupt: bool, vote: VoteModel)
    ensures
        !corrupt ==> sent_vote(corrupt, vote) == vote,
        ({
            let sent = sent_vote(corrupt, vote);
            &&& sent.validator == vote.validator
            &&& sent.height == vote.height
            &&& sent.view == vote.view
            &&& sent.block_id == vote.block_id
            &&& sent.phase == vote.phase
            &&& sent.signature.len() == vote.signature.len()
            &&& corrupt && vote.signature.len() > 0 ==> sent.signature[0] != vote.signature[0]
            &&& forall|i: int|
                1 <= i < vote.signature.len() ==> #[trigger] sent.signature[i] == vote.signature[i]
        }),
{
    if corrupt && vote.signature.len() > 0 {
        let byte = vote.signature[0];
        assert(byte ^ 1u8 != byte) by (bit_vector);
    }
}

/// A leader that is to equivocate sends two proposals of its round, one to every second
/// peer and the other to the rest, and does so once.
pub proof fn law_equivocating_leader_sends_two_proposals<S: AggregateSignatureScheme>(
    context: ContextModel<S>,
    turn: TurnModel,
    now: u64,
    reply: ReplyModel,
    i: int,
)
    requires
        leads(context, turn.safety),
        context.faults.equivocate_when_leader,
        !(propose_stage(context, turn, now, reply).1 is Fail),
        0 <= i < others(sorted_keys(context.peers), context.identity.id).len(),
    ensures
        ({
            let after = propose_stage(context, turn, now, reply).0;
            let recipients = others(sorted_keys(context.peers), context.identity.id);
            if turn.round.flags.equivocation_sent || since(now, turn.round.started)
                < context.faults.proposal_delay_ms {
                after == turn
            } else {
                &&& after.round.flags.equivocation_sent
                &&& after.effects.len() == turn.effects.len() + recipients.len()
                &&& after.effects[turn.effects.len() + i] matches EffectModel::Send {
                    peer,
                    message: WireModel::Proposal(signed),
                } && peer == recipients[i] && signed.proposal.height == turn.safety.height
                    && signed.proposal.view == turn.safety.view && signed.proposal.proposer
                    == context.identity.id && signed.proposal.transaction_ids == seq![
                    hash_of(
                        text_bytes(
                            if i % 2 == 0 {
                                "equivocation-a"
                            } else {
                                "equivocation-b"
                            },
                        ),
                    ),
                ]
            }
        }),
{
}

/// A leader repeats its proposal each time its interval is over and not before.
pub proof fn law_proposal_is_repeated_at_intervals<S: AggregateSignatureScheme>(
    context: ContextModel<S>,
    turn: TurnModel,
    now: u64,
    reply: ReplyModel,
)
    requires
        turn.round.proposal is Some,
        leads(context, turn.safety),
        !context.faults.equivocate_when_leader,
        now >= turn.round.started + context.faults.proposal_delay_ms,
        now >= turn.round.last_proposal_broadcast,
    ensures
        ({
            let (after, flow) = propose_stage(context, turn, now, reply);
            &&& flow is Continue
            &&& now - turn.round.last_proposal_broadcast < context.config.proposal_rebroadcast_ms
                ==> after == turn
            &&& now - turn.round.last_proposal_broadcast >= context.config.proposal_rebroadcast_ms
                ==> {
                &&& after.effects == turn.effects.push(
                    EffectModel::Broadcast {
                        message: WireModel::Proposal(turn.round.proposal.unwrap()),
                    },
                )
                &&& after.round == (RoundModel { last_proposal_broadcast: now, ..turn.round })
                &&& after.safety == turn.safety
            }
        }),
{
}

/// A new proposal counts as sent when it is.
pub proof fn law_new_proposal_starts_its_interval<S: AggregateSignatureScheme>(
    context: ContextModel<S>,
    turn: TurnModel,
    now: u64,
    reply: ReplyModel,
)
    requires
        turn.round.proposal is None,
        propose_stage(context, turn, now, reply).0.round.proposal is Some,
        !(propose_stage(context, turn, now, reply).1 is Fail),
        !equivocates(context, turn.safety, turn.round, now),
    ensures
        propose_stage(context, turn, now, reply).0.round.last_proposal_broadcast == now,
        propose_stage(context, turn, now, reply).0.effects.last() == (EffectModel::Broadcast {
            message: WireModel::Proposal(
                propose_stage(context, turn, now, reply).0.round.proposal.unwrap(),
            ),
        }),
{
}

/// A validator repeats a vote that it has cast: at once where it was never sent, and then
/// each time the interval is over, not before; it repeats nothing that it has not cast.
pub proof fn law_votes_are_repeated_at_intervals<S: AggregateSignatureScheme>(
    context: ContextModel<S>,
    turn: TurnModel,
    now: u64,
)
    ensures
        ({
            let after = resend_order_stage(context, turn, now);
            let due = turn.round.last_proposal_vote_sent is None || since(
                now,
                turn.round.last_proposal_vote_sent.unwrap(),
            ) >= context.config.proposal_rebroadcast_ms;
            if turn.round.proposal_vote is Some && due {
                &&& after.effects == turn.effects.push(
                    EffectModel::Broadcast {
                        message: WireModel::Vote(turn.round.proposal_vote.unwrap()),
                    },
                )
                &&& after.round == (RoundModel {
                    last_proposal_vote_sent: Some(now),
                    ..turn.round
                })
                &&& after.safety == turn.safety
            } else {
                after == turn
            }
        }),
        ({
            let after = resend_commit_stage(context, turn, now);
            let due = turn.round.last_commit_vote_sent is None || since(
                now,
                turn.round.last_commit_vote_sent.unwrap(),
            ) >= context.config.proposal_rebroadcast_ms;
            if turn.round.commit_vote is Some && due {
                &&& after.effects == turn.effects.push(
                    EffectModel::Broadcast {
                        message: WireModel::Vote(turn.round.commit_vote.unwrap()),
                    },
                )
                &&& after.round == (RoundModel { last_commit_vote_sent: Some(now), ..turn.round })
                &&& after.safety == turn.safety
            } else {
                after == turn
            }
        }),
{
}

/// A follower considers a vote once in a round: not while it leads or withholds votes, not
/// where the leader was seen to equivocate, and not before it has waited for that.
pub proof fn law_follower_waits_before_it_votes<S: AggregateSignatureScheme>(
    context: ContextModel<S>,
    turn: TurnModel,
    now: u64,
)
    ensures
        leads(context, turn.safety) || context.faults.withhold_votes
            || turn.round.flags.equivocation_detected || turn.round.flags.proposal_vote_sent
            || turn.round.first_proposal_at is None || since(
            now,
            turn.round.first_proposal_at.unwrap(),
        ) < context.config.proposal_vote_delay_ms || first_value(turn.round.observed) is None
            ==> vote_stage(context, turn, now) == turn,
        !leads(context, turn.safety) && !context.faults.withhold_votes
            && !turn.round.flags.equivocation_detected && turn.round.first_proposal_at is Some
            && since(now, turn.round.first_proposal_at.unwrap())
            >= context.config.proposal_vote_delay_ms && first_value(turn.round.observed) is Some
            ==> vote_stage(context, turn, now).round.flags.proposal_vote_sent,
{
}

/// Certificates are formed by those that emit them only, and only of a proposal that is
/// known; the slower path opens once the fast path has had its time, and once.
pub proof fn law_slow_path_waits_for_the_fast_one<S: AggregateSignatureScheme>(
    context: ContextModel<S>,
    turn: TurnModel,
    now: u64,
    proposal: crate::consensus::proposals::ProposalModel,
)
    ensures
        context.faults.certificate_emission != CertificateEmission::Enabled ==> certify_stage(
            context,
            turn,
            now,
        ) == (turn, Flow::Continue),
        certifiable(turn.round) is None ==> certify_stage(context, turn, now) == (
            turn,
            Flow::Continue,
        ),
        since(now, turn.round.started) < context.config.fast_path_wait_ms
            || turn.round.flags.prepare_sent ==> prepare_stage(context, turn, proposal, now) == turn,
        prepare_stage(context, turn, proposal, now) != turn ==> prepare_stage(
            context,
            turn,
            proposal,
            now,
        ).round.flags.prepare_sent,
{
}

/// Whether a round has just begun: nothing is proposed, seen, voted or sent in it.
pub open spec fn has_just_begun(round: RoundModel, now: u64) -> bool {
    &&& round.started == now
    &&& round.height_started == now
    &&& round.proposal is None
    &&& round.proposal_vote is None
    &&& round.commit_vote is None
    &&& round.observed.dom().len() == 0
    &&& round.relayed.len() == 0
    &&& round.order_votes.dom().len() == 0
    &&& round.commit_votes.dom().len() == 0
    &&& round.timeout_votes.dom().len() == 0
    &&& !round.flags.timeout_sent
    &&& !round.flags.prepare_sent
    &&& !round.flags.proposal_vote_sent
    &&& !round.flags.equivocation_detected
}

/// Once a message finalizes a block, a round of the next height begins, and it follows a
/// commit.
pub proof fn law_message_that_finalizes_starts_a_round<S: AggregateSignatureScheme>(
    context: ContextModel<S>,
    turn: TurnModel,
    sender: Hash256,
    message: WireModel,
    now: u64,
)
    requires
        handle_step(context, turn, sender, message, now).1 matches Flow::Finish(Some(_)),
    ensures
        has_just_begun(handle_step(context, turn, sender, message, now).0.round, now),
        handle_step(context, turn, sender, message, now).0.round.follows_commit,
{
    law_new_round_is_empty(now, true);
}

/// Once a validator forms the certificate that finalizes a block, a round of the next
/// height begins, and it follows a commit.
pub proof fn law_certificate_that_finalizes_starts_a_round<S: AggregateSignatureScheme>(
    context: ContextModel<S>,
    turn: TurnModel,
    now: u64,
)
    requires
        certify_stage(context, turn, now).1 matches Flow::Finish(Some(_)),
    ensures
        has_just_begun(certify_stage(context, turn, now).0.round, now),
        certify_stage(context, turn, now).0.round.follows_commit,
{
    law_new_round_is_empty(now, true);
}

/// A change of view begins a round of the same height, which follows no commit.
pub proof fn law_view_change_starts_a_round<S: AggregateSignatureScheme>(
    context: ContextModel<S>,
    turn: TurnModel,
    certificate: CertificateModel,
    now: u64,
)
    requires
        view_change_step(context, turn, certificate, now).1 is Continue,
    ensures
        ({
            let after = view_change_step(context, turn, certificate, now).0;
            &&& has_just_begun(after.round, now)
            &&& !after.round.follows_commit
            &&& after.safety.height == turn.safety.height
            &&& after.safety.view == turn.safety.view + 1
            &&& after.safety.parent_id == turn.safety.parent_id
            &&& after.safety.lock == turn.safety.lock
        }),
{
    law_new_round_is_empty(now, false);
}

/// Nobody speaks for another: a proposal counts from its proposer only, a vote from its
/// voter only, and a certificate from validators only.
pub proof fn law_nobody_speaks_for_another<S: AggregateSignatureScheme>(
    context: ContextModel<S>,
    turn: TurnModel,
    sender: Hash256,
    signed: SignedProposalModel,
    vote: VoteModel,
    certificate: CertificateModel,
    transaction_ids: Option<Seq<Hash256>>,
    fee_commitment: Option<Hash256>,
    now: u64,
)
    ensures
        sender != signed.proposal.proposer ==> handle_step(
            context,
            turn,
            sender,
            WireModel::Proposal(signed),
            now,
        ) == (turn, Flow::Finish(None)),
        sender != vote.validator ==> handle_step(
            context,
            turn,
            sender,
            WireModel::Vote(vote),
            now,
        ) == (turn, Flow::Finish(None)),
        member(context.identity.table, sender) is None ==> handle_step(
            context,
            turn,
            sender,
            WireModel::Certificate { certificate, transaction_ids, fee_commitment },
            now,
        ) == (turn, Flow::Finish(None)),
        certificate.height < turn.safety.height && certificate_check(
            certificate,
            context.identity.table,
            context.identity.scheme,
        ) is Ok ==> handle_step(
            context,
            turn,
            sender,
            WireModel::Certificate { certificate, transaction_ids, fee_commitment },
            now,
        ) == (turn, Flow::Finish(None)),
{
}

/// What a validator certifies is its own proposal where it has one, and otherwise, of
/// those that it has seen, the one with the least identifier.
pub proof fn law_own_proposal_comes_first(round: RoundModel, id: Hash256)
    requires
        round.observed.dom().finite(),
    ensures
        round.proposal is Some ==> certifiable(round) == round.proposal,
        round.proposal is None && round.observed.contains_key(id) ==> (certifiable(round) is Some
            && exists|least: Hash256| #[trigger]
            round.observed.contains_key(least) && certifiable(round) == Some(round.observed[least])
                && (least == id || least.precedes(id))),
        round.proposal is None && round.observed.dom().len() == 0 ==> certifiable(round) is None,
{
    let keys = sorted_keys(round.observed.dom());
    lemma_sorted_keys_of_finite(round.observed.dom());
    if round.observed.contains_key(id) {
        assert(keys.contains(id));
        let k = choose|k: int| 0 <= k < keys.len() && keys[k] == id;
        assert(keys.contains(keys[0]));
        assert(round.observed.contains_key(keys[0]));
        if k > 0 {
            assert(keys[0].precedes(keys[k]));
        }
    }
    if round.observed.dom().len() == 0 && keys.len() > 0 {
        assert(keys.contains(keys[0]));
        assert(round.observed.dom().contains(keys[0]));
    }
}

/// A vote that is not of this round, does not verify, or times out on behalf of a block
/// changes nothing.
pub proof fn law_useless_votes_are_ignored<S: AggregateSignatureScheme>(
    context: ContextModel<S>,
    turn: TurnModel,
    sender: Hash256,
    vote: VoteModel,
    now: u64,
)
    requires
        ({
            ||| vote.height != turn.safety.height
            ||| vote.view != turn.safety.view
            ||| vote_check(vote, context.identity.table, context.identity.scheme) is Err
            ||| vote.phase == VotePhase::Timeout && vote.block_id != zero_hash()
        }),
    ensures
        handle_step(context, turn, sender, WireModel::Vote(vote), now) == (
            turn,
            Flow::Finish(None),
        ),
{
}

} // verus!
