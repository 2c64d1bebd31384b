//! The decisions of a validator that drives consensus rounds: what a tick of
//! its clock and each received message do to its state, and what it sends.

use std::sync::Arc;

use vstd::prelude::*;

use crate::bytes::append_be64;
use crate::bytes::be64;
use crate::consensus::certificates::{
    assembled, certificate_check, vote_refusal, with_vote, CertificateKind, CertificateModel,
    CollectorModel, QuorumCertificate, VoteCollector,
};
use crate::consensus::errors::ConsensusError;
use crate::consensus::proposals::{
    block_id_of, proposal_check, signed_proposal, OrderModel, Proposal, ProposalModel,
    SignedProposalModel,
};
use crate::consensus::replica::{
    advance_step, commit_step, finalize_step, order_step, timeout_step, ReplicaIdentity,
    SafetyState,
};
use crate::consensus::validators::{leader_of, member};
use crate::consensus::votes::{vote_check, Vote, VoteModel, VotePhase};
use crate::consensus::ValidatorSet;
use crate::crypto::{AggregateSignatureScheme, CryptoError};
use crate::node::genesis::GenesisError;
use crate::node::round::{
    certifiable, defers_empty, first_value, fresh_round, since, votes_of, with_first_vote,
    CoordinatorOutcome, EffectModel, RoundFlags, RoundModel, WireModel,
};
use crate::ordered::{sorted_keys, OrderedMap, OrderedSet};
use crate::types::{hash_of, zero_hash, Hash256};

verus! {

/// Milliseconds that give transaction gossip one propagation window to reach the
/// next leader before it snapshots an otherwise-empty mempool into a proposal.
pub const EMPTY_MEMPOOL_PROPAGATION_MARGIN_MS: u64 = 15;

/// Minimum spacing in milliseconds between a validator's catch-up requests, so a
/// run of behind-signals asks a peer to replay at most once per interval.
pub const CATCHUP_REQUEST_INTERVAL_MS: u64 = 200;

/// Why a coordinator stopped or could not start.
#[derive(Debug, PartialEq, Eq)]
pub enum CoordinatorError {
    /// The consensus coordinator configuration is invalid.
    InvalidConfiguration,
    /// The local validator is absent from genesis.
    UnknownLocalValidator,
    /// The validator private key does not match genesis.
    PrivateKeyMismatch,
    InvalidNetworkAddress(String),
    /// A consensus frame exceeds its configured limit.
    MessageTooLarge,
    /// A non-timeout certificate omitted its canonical transaction order.
    MissingCertifiedOrder,
    /// The transaction order attached to a certificate does not derive its block ID.
    InvalidCertifiedOrder,
    /// The finalized-order execution sink is closed.
    FinalizedOrderSinkClosed,
    /// A consensus peer connection timed out.
    ConnectTimeout,
    /// The consensus listener was already consumed.
    ListenerAlreadyTaken,
    Encoding(String),
    Genesis(GenesisError),
    Consensus(ConsensusError),
    Crypto(CryptoError),
    Storage(String),
    Io(String),
}

/// Consensus timings in milliseconds, the frame limit and the termination bound.
#[derive(Clone, Copy, Debug, PartialEq, Eq, Structural)]
pub struct CoordinatorConfig {
    pub fast_path_wait_ms: u64,
    pub round_timeout_ms: u64,
    pub proposal_rebroadcast_ms: u64,
    pub proposal_vote_delay_ms: u64,
    pub maximum_message_bytes: usize,
    pub stop_after_height: Option<u64>,
}

impl Default for CoordinatorConfig {
    fn default() -> (config: Self)
        ensures
            config == (CoordinatorConfig {
                fast_path_wait_ms: 80,
                round_timeout_ms: 300,
                proposal_rebroadcast_ms: 50,
                proposal_vote_delay_ms: 20,
                maximum_message_bytes: 4_194_304,
                stop_after_height: None,
            }),
    {
        CoordinatorConfig {
            fast_path_wait_ms: 80,
            round_timeout_ms: 300,
            proposal_rebroadcast_ms: 50,
            proposal_vote_delay_ms: 20,
            maximum_message_bytes: 4 * 1024 * 1024,
            stop_after_height: None,
        }
    }
}

/// Whether a validator originates certificates.
#[derive(Clone, Copy, Debug, PartialEq, Eq, Structural)]
pub enum CertificateEmission {
    Enabled,
    /// Forms and disseminates votes but never originates a certificate. This
    /// models a leader that collects votes and withholds the aggregate.
    Withhold,
}

impl Default for CertificateEmission {
    fn default() -> (emission: Self)
        ensures
            emission == CertificateEmission::Enabled,
    {
        CertificateEmission::Enabled
    }
}

/// Operator-controlled fault injection. All fields are disabled by default.
#[derive(Debug, PartialEq, Eq)]
pub struct CoordinatorFaults {
    pub withhold_votes: bool,
    pub certificate_emission: CertificateEmission,
    pub corrupt_votes: bool,
    pub equivocate_when_leader: bool,
    pub blocked_peers: OrderedSet<Hash256>,
    pub outbound_delay_ms: u64,
    pub drop_basis_points: u16,
    pub proposal_delay_ms: u64,
}

/// The value of injected faults.
pub struct FaultModel {
    pub withhold_votes: bool,
    pub certificate_emission: CertificateEmission,
    pub corrupt_votes: bool,
    pub equivocate_when_leader: bool,
    pub blocked_peers: Set<Hash256>,
    pub outbound_delay_ms: u64,
    pub drop_basis_points: u16,
    pub proposal_delay_ms: u64,
}

impl View for CoordinatorFaults {
    type V = FaultModel;

    open spec fn view(&self) -> FaultModel {
        FaultModel {
            withhold_votes: self.withhold_votes,
            certificate_emission: self.certificate_emission,
            corrupt_votes: self.corrupt_votes,
            equivocate_when_leader: self.equivocate_when_leader,
            blocked_peers: self.blocked_peers@,
            outbound_delay_ms: self.outbound_delay_ms,
            drop_basis_points: self.drop_basis_points,
            proposal_delay_ms: self.proposal_delay_ms,
        }
    }
}

impl Default for CoordinatorFaults {
    fn default() -> (faults: Self)
        ensures
            faults@ == (FaultModel {
                withhold_votes: false,
                certificate_emission: CertificateEmission::Enabled,
                corrupt_votes: false,
                equivocate_when_leader: false,
                blocked_peers: Set::empty(),
                outbound_delay_ms: 0,
                drop_basis_points: 0,
                proposal_delay_ms: 0,
            }),
    {
        CoordinatorFaults {
            withhold_votes: false,
            certificate_emission: CertificateEmission::Enabled,
            corrupt_votes: false,
            equivocate_when_leader: false,
            blocked_peers: OrderedSet::new(),
            outbound_delay_ms: 0,
            drop_basis_points: 0,
            proposal_delay_ms: 0,
        }
    }
}

/// Whether timings and faults can be run with.
pub open spec fn valid_configuration(config: CoordinatorConfig, faults: FaultModel) -> bool {
    &&& config.fast_path_wait_ms > 0
    &&& config.round_timeout_ms > config.fast_path_wait_ms
    &&& config.proposal_rebroadcast_ms > 0
    &&& 0 < config.proposal_vote_delay_ms < config.fast_path_wait_ms
    &&& config.maximum_message_bytes > 0
    &&& faults.drop_basis_points <= 10_000
}

/// Turns any replica refusal to sign a vote into "skip this vote", never a fatal
/// fault. Applied only to the vote-casting calls, whose every error means "do
/// not vote for this".
///
/// Declining to cast a vote can never cause a safety violation: safety is only
/// ever endangered by casting conflicting votes, which these refusals exist to
/// prevent. The round then advances by timeout or the validator advances by
/// catching up. Certificate application is deliberately not routed through here:
/// an error there is a genuine invariant break and must stay fatal.
pub fn skip_safe_vote_refusal(result: Result<Vote, ConsensusError>) -> (vote: Option<Vote>)
    ensures
        vote == (match result {
            Ok(vote) => Some(vote),
            Err(_) => None,
        }),
{
    match result {
        Ok(vote) => Some(vote),
        Err(_) => None,
    }
}

/// How often the round timeout has doubled in a view.
pub open spec fn timeout_factor(view: u64) -> u128
    decreases view,
{
    if view == 0 {
        1
    } else if view > 6 {
        64
    } else {
        (2 * timeout_factor((view - 1) as u64)) as u128
    }
}

/// The round timeout of a view in milliseconds.
pub open spec fn timeout_of(base_ms: u64, view: u64) -> u128 {
    (base_ms * timeout_factor(view)) as u128
}

/// The factor doubles from one view to the next, up to sixty-four.
proof fn lemma_timeout_factor(view: u64)
    ensures
        timeout_factor(view) == (if view == 0 {
            1u128
        } else if view == 1 {
            2
        } else if view == 2 {
            4
        } else if view == 3 {
            8
        } else if view == 4 {
            16
        } else if view == 5 {
            32
        } else {
            64
        }),
{
    reveal_with_fuel(timeout_factor, 8);
}

/// Round timeout for `view` in milliseconds, doubling each view up to six times.
///
/// A fixed round timeout cannot recover from an environment slower than it.
/// Once rounds stop completing within it, replicas split: some cast this view's
/// order vote, the rest time out, and because an honest replica may not cast
/// both, neither side reaches its quorum. Backing the timeout off per view is
/// what partial synchrony relies on for liveness: it grows until it exceeds the
/// real round time, at which point rounds complete again. The view resets to 0
/// on every committed height, so a healthy chain always runs at the base timeout.
pub fn round_timeout_for_view(base_ms: u64, view: u64) -> (timeout_ms: u128)
    ensures
        timeout_ms == timeout_of(base_ms, view),
{
    let factor: u128 = if view == 0 {
        1
    } else if view == 1 {
        2
    } else if view == 2 {
        4
    } else if view == 3 {
        8
    } else if view == 4 {
        16
    } else if view == 5 {
        32
    } else {
        64
    };
    proof {
        lemma_timeout_factor(view);
        assert(base_ms * factor <= u64::MAX * 64) by (nonlinear_arith)
            requires
                base_ms <= u64::MAX,
                factor <= 64,
        ;
    }
    base_ms as u128 * factor
}

/// The round timeout starts at the base, at least holds from view to view,
/// doubles until the sixth view change and never exceeds sixty-four times the base.
pub proof fn law_round_timeout_backs_off(base_ms: u64, view: u64)
    requires
        view < u64::MAX,
    ensures
        timeout_of(base_ms, 0) == base_ms,
        timeout_of(base_ms, view) <= timeout_of(base_ms, (view + 1) as u64) <= 64 * base_ms,
        view < 6 ==> timeout_of(base_ms, (view + 1) as u64) == 2 * timeout_of(base_ms, view),
{
    lemma_timeout_factor(0);
    lemma_timeout_factor(view);
    lemma_timeout_factor((view + 1) as u64);
    let here = timeout_factor(view);
    let next = timeout_factor((view + 1) as u64);
    assert(base_ms * here <= base_ms * next <= 64 * base_ms) by (nonlinear_arith)
        requires
            here <= next <= 64,
    ;
    assert(view < 6 ==> base_ms * next == 2 * (base_ms * here)) by (nonlinear_arith)
        requires
            view < 6 ==> next == 2 * here,
    ;
}

/// A transaction order to propose, with the commitment to its base fees.
#[derive(Debug)]
pub struct ProposedOrder {
    pub transaction_ids: Vec<Hash256>,
    pub fee_commitment: Hash256,
}

/// Supplies the canonical transaction IDs and fee commitment a leader should
/// order at a height. Returning `None` leaves the height open without proposing
/// synthetic work. The fee commitment binds whatever per-transaction local base
/// fees the source chose into the certified block, so it must be the same one
/// recoverable from the actual propagated payload.
pub trait ProposalTransactionSource {
    /// The order to propose at a height.
    fn transaction_ids(&self, height: u64, parent_id: Hash256) -> (order: Option<ProposedOrder>);

    /// Reports whether asking for a proposal now would snapshot an empty
    /// transaction set. Sources that cannot answer cheaply should retain the
    /// default and will not be delayed.
    fn is_empty(&self) -> (empty: bool) {
        false
    }
}

/// A source that orders one synthetic transaction per height.
#[derive(Debug)]
pub struct SyntheticProposalSource;

impl ProposalTransactionSource for SyntheticProposalSource {
    fn transaction_ids(&self, height: u64, _parent_id: Hash256) -> (order: Option<ProposedOrder>)
        ensures
            order matches Some(order) && order.transaction_ids@ == seq![hash_of(be64(height))]
                && order.fee_commitment == zero_hash(),
    {
        let mut bytes: Vec<u8> = Vec::new();
        append_be64(&mut bytes, height);
        assert(bytes@ =~= be64(height));
        let mut transaction_ids: Vec<Hash256> = Vec::new();
        transaction_ids.push(Hash256::digest(&bytes));
        assert(transaction_ids@ =~= seq![hash_of(be64(height))]);
        Some(ProposedOrder { transaction_ids, fee_commitment: Hash256::default() })
    }
}

/// What a proposal source answered.
#[derive(Debug)]
pub struct SourceReply {
    pub is_empty: bool,
    pub order: Option<ProposedOrder>,
}

/// The value of an answer of a proposal source.
pub struct ReplyModel {
    pub is_empty: bool,
    pub order: Option<(Seq<Hash256>, Hash256)>,
}

impl View for SourceReply {
    type V = ReplyModel;

    open spec fn view(&self) -> ReplyModel {
        ReplyModel {
            is_empty: self.is_empty,
            order: match self.order {
                Some(order) => Some((order.transaction_ids@, order.fee_commitment)),
                None => None,
            },
        }
    }
}

/// Whether a step leaves the rest of its turn to be done.
#[derive(Debug)]
pub enum Flow {
    Continue,
    Finish(Option<CoordinatorOutcome>),
    Fail(CoordinatorError),
}

/// What does not change while a coordinator runs.
pub struct ContextModel<S> {
    pub identity: ReplicaIdentity<S>,
    pub peers: Set<Hash256>,
    pub config: CoordinatorConfig,
    pub faults: FaultModel,
}

/// What a turn changes, and the effects it has asked for so far.
pub struct TurnModel {
    pub safety: SafetyState,
    pub requested_at: Option<u64>,
    pub round: RoundModel,
    pub effects: Seq<EffectModel>,
}

/// The turn with one more effect.
pub open spec fn with_effect(turn: TurnModel, effect: EffectModel) -> TurnModel {
    TurnModel { effects: turn.effects.push(effect), ..turn }
}

/// The turn after the safety state changed and was stored.
pub open spec fn persisted(turn: TurnModel, safety: SafetyState) -> TurnModel {
    TurnModel {
        safety,
        effects: turn.effects.push(EffectModel::Persist { state: safety }),
        ..turn
    }
}

/// Votes in the order of their validators.
pub open spec fn in_validator_order(votes: Map<Hash256, VoteModel>) -> Seq<VoteModel> {
    sorted_keys(votes.dom()).map_values(|id: Hash256| votes[id])
}

/// What a collector holds after votes were added, and the last certificate that
/// adding them gave.
pub open spec fn gathered<S: AggregateSignatureScheme>(
    start: CollectorModel,
    votes: Seq<VoteModel>,
    scheme: S,
) -> (CollectorModel, Option<CertificateModel>)
    decreases votes.len(),
{
    if votes.len() == 0 {
        (start, None)
    } else {
        let (state, certificate) = gathered(start, votes.drop_last(), scheme);
        let vote = votes.last();
        match vote_refusal(state, vote, scheme) {
            Some(_) => (state, certificate),
            None => {
                let next = with_vote(state, vote);
                match assembled(next, sorted_keys(next.votes.dom()), scheme) {
                    Ok(Some(formed)) => (next, Some(formed)),
                    _ => (next, certificate),
                }
            },
        }
    }
}

/// The certificate that votes for a target make, if they make one.
pub open spec fn certified<S: AggregateSignatureScheme>(
    context: ContextModel<S>,
    kind: CertificateKind,
    height: u64,
    view: u64,
    block_id: Hash256,
    votes: Map<Hash256, VoteModel>,
) -> Option<CertificateModel> {
    gathered(
        CollectorModel {
            table: context.identity.table,
            kind,
            height,
            view,
            block_id,
            votes: Map::empty(),
        },
        in_validator_order(votes),
        context.identity.scheme,
    ).1
}

/// Forms a certificate from the votes for a target, if they suffice.
pub fn make_certificate<S: AggregateSignatureScheme>(
    validators: &ValidatorSet,
    scheme: &Arc<S>,
    kind: CertificateKind,
    height: u64,
    view: u64,
    block_id: Hash256,
    votes: &OrderedMap<Hash256, Vote>,
) -> (certificate: Option<QuorumCertificate>)
    ensures
        match certificate {
            Some(certificate) => Some(certificate@),
            None => None,
        } == gathered(
            CollectorModel {
                table: validators@,
                kind,
                height,
                view,
                block_id,
                votes: Map::empty(),
            },
            in_validator_order(votes_of(votes@)),
            **scheme,
        ).1,
{
    let mut collector = VoteCollector::new(validators, scheme.clone(), kind, height, view, block_id);
    let ghost start = collector@;
    let ghost ordered = in_validator_order(votes_of(votes@));
    let ghost used = collector.scheme_used();
    let mut certificate: Option<QuorumCertificate> = None;
    let keys = votes.keys();
    proof {
        assert(votes_of(votes@).dom() =~= votes@.dom());
        assert(ordered.len() == keys@.len());
    }
    let mut index: usize = 0;
    while index < keys.len()
        invariant
            index <= keys@.len(),
            keys@.len() == ordered.len(),
            keys@ == sorted_keys(votes_of(votes@).dom()),
            ordered == in_validator_order(votes_of(votes@)),
            forall|key: Hash256| keys@.contains(key) <==> votes@.contains_key(key),
            collector.scheme_used() == used,
            gathered(start, ordered.take(index as int), used) == (
                collector@,
                match certificate {
                    Some(certificate) => Some(certificate@),
                    None => None,
                },
            ),
        decreases keys@.len() - index,
    {
        assert(keys@.contains(keys@[index as int]));
        proof {
            let next = ordered.take(index + 1);
            assert(next.drop_last() =~= ordered.take(index as int));
            assert(next.last() == votes_of(votes@)[keys@[index as int]]);
        }
        if let Some(vote) = votes.get(&keys[index]) {
            let added = collector.add_vote(vote.clone());
            if let Ok(Some(formed)) = added {
                certificate = Some(formed);
            }
        }
        index += 1;
    }
    assert(ordered.take(index as int) =~= ordered);
    certificate
}

/// Whether the validator leads the round that it is in.
pub open spec fn leads<S>(context: ContextModel<S>, safety: SafetyState) -> bool {
    context.identity.id == leader_of(context.identity.table, safety.height, safety.view).id
}

/// A vote with the first bit of its signature flipped, where the validator is
/// made to corrupt its votes.
pub open spec fn sent_vote(corrupt: bool, vote: VoteModel) -> VoteModel {
    if corrupt && vote.signature.len() > 0 {
        VoteModel { signature: vote.signature.update(0, vote.signature[0] ^ 1u8), ..vote }
    } else {
        vote
    }
}

/// The block that a validator proposes in its round.
pub open spec fn proposed<S>(
    context: ContextModel<S>,
    safety: SafetyState,
    transaction_ids: Seq<Hash256>,
    fee_commitment: Hash256,
) -> ProposalModel {
    ProposalModel {
        height: safety.height,
        view: safety.view,
        parent_id: safety.parent_id,
        proposer: context.identity.id,
        transaction_ids,
        fee_commitment,
        justify: None,
        block_id: block_id_of(safety.height, safety.parent_id, transaction_ids, fee_commitment),
    }
}

/// A validator's proposal of one made-up transaction, signed.
pub open spec fn made_up<S: AggregateSignatureScheme>(
    context: ContextModel<S>,
    safety: SafetyState,
    text: &str,
) -> Result<SignedProposalModel, ConsensusError> {
    signed_proposal(
        proposed(
            context,
            safety,
            seq![hash_of(crate::bytes::text_bytes(text))],
            zero_hash(),
        ),
        context.identity.private_key,
        context.identity.scheme,
    )
}

/// The other validators in order.
pub open spec fn others(peers: Seq<Hash256>, id: Hash256) -> Seq<Hash256>
    decreases peers.len(),
{
    if peers.len() == 0 {
        Seq::empty()
    } else {
        let earlier = others(peers.drop_last(), id);
        if peers.last() == id {
            earlier
        } else {
            earlier.push(peers.last())
        }
    }
}

/// Sends the first message to every other recipient, beginning with the first,
/// and the second message to the rest.
pub open spec fn alternating(
    recipients: Seq<Hash256>,
    first: SignedProposalModel,
    second: SignedProposalModel,
) -> Seq<EffectModel> {
    Seq::new(
        recipients.len(),
        |i: int|
            EffectModel::Send {
                peer: recipients[i],
                message: WireModel::Proposal(
                    if i % 2 == 0 {
                        first
                    } else {
                        second
                    },
                ),
            },
    )
}

/// Casts an order vote for a proposal, if the replica agrees to.
pub open spec fn order_vote_step<S: AggregateSignatureScheme>(
    context: ContextModel<S>,
    turn: TurnModel,
    proposal: ProposalModel,
    corrupt: bool,
) -> TurnModel {
    let (safety, result) = order_step(turn.safety, context.identity, proposal);
    match result {
        Err(_) => TurnModel { safety, ..turn },
        Ok(signed) => {
            let vote = sent_vote(corrupt, signed);
            TurnModel {
                round: RoundModel {
                    order_votes: turn.round.order_votes.insert(vote.validator, vote),
                    proposal_vote: Some(vote),
                    ..turn.round
                },
                ..persisted(turn, safety)
            }
        },
    }
}

/// A leader without a proposal makes one from what its source offers.
pub open spec fn build_step<S: AggregateSignatureScheme>(
    context: ContextModel<S>,
    turn: TurnModel,
    now: u64,
    reply: ReplyModel,
) -> (TurnModel, Flow) {
    if defers_empty(turn.round, EMPTY_MEMPOOL_PROPAGATION_MARGIN_MS, reply.is_empty, now) {
        (turn, Flow::Continue)
    } else {
        match reply.order {
            None => (turn, Flow::Continue),
            Some((transaction_ids, fee_commitment)) => {
                let proposal = proposed(context, turn.safety, transaction_ids, fee_commitment);
                match signed_proposal(
                    proposal,
                    context.identity.private_key,
                    context.identity.scheme,
                ) {
                    Err(error) => (turn, Flow::Fail(CoordinatorError::Consensus(error))),
                    Ok(signed) => {
                        let made = TurnModel {
                            round: RoundModel { proposal: Some(signed), ..turn.round },
                            ..turn
                        };
                        if context.faults.withhold_votes {
                            (made, Flow::Continue)
                        } else {
                            (order_vote_step(context, made, proposal, false), Flow::Continue)
                        }
                    },
                }
            },
        }
    }
}

/// A leader whose injected delay is over may propose.
pub open spec fn may_propose<S>(
    context: ContextModel<S>,
    safety: SafetyState,
    round: RoundModel,
    now: u64,
) -> bool {
    &&& leads(context, safety)
    &&& since(now, round.started) >= context.faults.proposal_delay_ms
    &&& !context.faults.equivocate_when_leader
    &&& round.proposal is None || since(now, round.last_proposal_broadcast)
        >= context.config.proposal_rebroadcast_ms
}

/// Whether a reply is what a proposal source answers now. It is asked only by a
/// leader that has no proposal yet: whether it is empty and, unless an empty
/// proposal is put off, for an order on top of the current parent.
pub open spec fn answered<S, P: ProposalTransactionSource>(
    context: ContextModel<S>,
    safety: SafetyState,
    round: RoundModel,
    now: u64,
    source: &P,
    reply: SourceReply,
) -> bool {
    if !may_propose(context, safety, round, now) || round.proposal is Some {
        !reply.is_empty && reply.order is None
    } else {
        &&& call_ensures(P::is_empty, (source,), reply.is_empty)
        &&& if defers_empty(round, EMPTY_MEMPOOL_PROPAGATION_MARGIN_MS, reply.is_empty, now) {
            reply.order is None
        } else {
            call_ensures(
                P::transaction_ids,
                (source, safety.height, safety.parent_id),
                reply.order,
            )
        }
    }
}

/// A leader made to equivocate does so once, when its injected delay is over.
pub open spec fn equivocates<S>(
    context: ContextModel<S>,
    safety: SafetyState,
    round: RoundModel,
    now: u64,
) -> bool {
    &&& leads(context, safety)
    &&& since(now, round.started) >= context.faults.proposal_delay_ms
    &&& context.faults.equivocate_when_leader
    &&& !round.flags.equivocation_sent
}

/// The leader proposes, repeats its proposal, or equivocates where made to.
pub open spec fn propose_stage<S: AggregateSignatureScheme>(
    context: ContextModel<S>,
    turn: TurnModel,
    now: u64,
    reply: ReplyModel,
) -> (TurnModel, Flow) {
    if equivocates(context, turn.safety, turn.round, now) {
        match made_up(context, turn.safety, "equivocation-a") {
            Err(error) => (turn, Flow::Fail(CoordinatorError::Consensus(error))),
            Ok(first) => match made_up(context, turn.safety, "equivocation-b") {
                Err(error) => (turn, Flow::Fail(CoordinatorError::Consensus(error))),
                Ok(second) => (
                    TurnModel {
                        round: RoundModel {
                            flags: RoundFlags { equivocation_sent: true, ..turn.round.flags },
                            ..turn.round
                        },
                        effects: turn.effects + alternating(
                            others(sorted_keys(context.peers), context.identity.id),
                            first,
                            second,
                        ),
                        ..turn
                    },
                    Flow::Continue,
                ),
            },
        }
    } else if may_propose(context, turn.safety, turn.round, now) {
        let (built, flow) = if turn.round.proposal is None {
            build_step(context, turn, now, reply)
        } else {
            (turn, Flow::Continue)
        };
        if flow is Fail {
            (built, flow)
        } else {
            match built.round.proposal {
                None => (built, Flow::Continue),
                Some(signed) => (
                    TurnModel {
                        round: RoundModel { last_proposal_broadcast: now, ..built.round },
                        ..with_effect(
                            built,
                            EffectModel::Broadcast { message: WireModel::Proposal(signed) },
                        )
                    },
                    Flow::Continue,
                ),
            }
        }
    } else {
        (turn, Flow::Continue)
    }
}

/// Whether a validator that does not lead votes now for what it has observed.
pub open spec fn votes_now<S>(context: ContextModel<S>, turn: TurnModel, now: u64) -> bool {
    &&& !leads(context, turn.safety)
    &&& !context.faults.withhold_votes
    &&& !turn.round.flags.equivocation_detected
    &&& turn.round.first_proposal_at matches Some(received) && since(now, received)
        >= context.config.proposal_vote_delay_ms
    &&& first_value(turn.round.observed) is Some
    &&& !turn.round.flags.proposal_vote_sent
}

/// A validator that does not lead votes once for the proposal it has observed,
/// unless it has observed two.
pub open spec fn vote_stage<S: AggregateSignatureScheme>(
    context: ContextModel<S>,
    turn: TurnModel,
    now: u64,
) -> TurnModel {
    if votes_now(context, turn, now) {
        let proposal = first_value(turn.round.observed).unwrap().proposal;
        let marked = TurnModel {
            round: RoundModel {
                flags: RoundFlags { proposal_vote_sent: true, ..turn.round.flags },
                ..turn.round
            },
            ..turn
        };
        order_vote_step(context, marked, proposal, context.faults.corrupt_votes)
    } else {
        turn
    }
}

/// Whether a vote is due to be sent, for the first time or again.
pub open spec fn resend_due(sent_at: Option<u64>, interval: u64, now: u64) -> bool {
    match sent_at {
        None => true,
        Some(sent) => since(now, sent) >= interval,
    }
}

/// The validator sends its order vote until a certificate arrives.
pub open spec fn resend_order_stage<S>(context: ContextModel<S>, turn: TurnModel, now: u64) -> TurnModel {
    match turn.round.proposal_vote {
        Some(vote) => if resend_due(
            turn.round.last_proposal_vote_sent,
            context.config.proposal_rebroadcast_ms,
            now,
        ) {
            TurnModel {
                round: RoundModel { last_proposal_vote_sent: Some(now), ..turn.round },
                ..with_effect(turn, EffectModel::Broadcast { message: WireModel::Vote(vote) })
            }
        } else {
            turn
        },
        None => turn,
    }
}

/// The validator sends its commit vote until a certificate arrives.
pub open spec fn resend_commit_stage<S>(context: ContextModel<S>, turn: TurnModel, now: u64) -> TurnModel {
    match turn.round.commit_vote {
        Some(vote) => if resend_due(
            turn.round.last_commit_vote_sent,
            context.config.proposal_rebroadcast_ms,
            now,
        ) {
            TurnModel {
                round: RoundModel { last_commit_vote_sent: Some(now), ..turn.round },
                ..with_effect(turn, EffectModel::Broadcast { message: WireModel::Vote(vote) })
            }
        } else {
            turn
        },
        None => turn,
    }
}

/// Finalizes one certified order at the current height.
pub open spec fn commit_order_step<S: AggregateSignatureScheme>(
    context: ContextModel<S>,
    turn: TurnModel,
    order: OrderModel,
    latency_ms: u64,
) -> (TurnModel, Result<CoordinatorOutcome, CoordinatorError>) {
    let (safety, result) = finalize_step(turn.safety, context.identity, order.certificate);
    match result {
        Err(error) => (TurnModel { safety, ..turn }, Err(CoordinatorError::Consensus(error))),
        Ok(finalized_block) => {
            let outcome = CoordinatorOutcome {
                finalized_height: order.height,
                finalized_block,
                finality_latency_ms: latency_ms,
                view_changes: order.certificate.view,
            };
            (
                with_effect(persisted(turn, safety), EffectModel::Finalize { order, outcome }),
                Ok(outcome),
            )
        },
    }
}

/// Applies a final certificate of the current height and starts the next one.
pub open spec fn certificate_step<S: AggregateSignatureScheme>(
    context: ContextModel<S>,
    turn: TurnModel,
    certificate: CertificateModel,
    transaction_ids: Seq<Hash256>,
    fee_commitment: Hash256,
    now: u64,
) -> (TurnModel, Flow) {
    if certificate.height != turn.safety.height {
        (turn, Flow::Finish(None))
    } else {
        let order = OrderModel {
            height: certificate.height,
            block_id: certificate.block_id,
            transaction_ids,
            fee_commitment,
            certificate,
        };
        let (committed, result) = commit_order_step(
            context,
            turn,
            order,
            since(now, turn.round.height_started),
        );
        match result {
            Err(error) => (committed, Flow::Fail(error)),
            Ok(outcome) => (
                TurnModel { round: fresh_round(now, true), ..committed },
                Flow::Finish(Some(outcome)),
            ),
        }
    }
}

/// Casts the commit vote that a prepare certificate of the current round asks
/// for, once.
pub open spec fn prepare_step<S: AggregateSignatureScheme>(
    context: ContextModel<S>,
    turn: TurnModel,
    certificate: CertificateModel,
    now: u64,
) -> TurnModel {
    if certificate.height != turn.safety.height || certificate.view != turn.safety.view
        || context.faults.withhold_votes || turn.round.commit_vote is Some {
        turn
    } else {
        let (safety, result) = commit_step(turn.safety, context.identity, certificate);
        match result {
            Err(_) => TurnModel { safety, ..turn },
            Ok(signed) => {
                let vote = sent_vote(context.faults.corrupt_votes, signed);
                TurnModel {
                    round: RoundModel {
                        commit_votes: turn.round.commit_votes.insert(vote.validator, vote),
                        commit_vote: Some(vote),
                        last_commit_vote_sent: Some(now),
                        ..turn.round
                    },
                    ..with_effect(
                        persisted(turn, safety),
                        EffectModel::Broadcast { message: WireModel::Vote(vote) },
                    )
                }
            },
        }
    }
}

/// The message that carries a certificate with the order it certifies.
pub open spec fn certificate_message(
    certificate: CertificateModel,
    proposal: ProposalModel,
) -> EffectModel {
    EffectModel::Broadcast {
        message: WireModel::Certificate {
            certificate,
            transaction_ids: Some(proposal.transaction_ids),
            fee_commitment: Some(proposal.fee_commitment),
        },
    }
}

/// Sends a final certificate and applies it.
pub open spec fn finish_step<S: AggregateSignatureScheme>(
    context: ContextModel<S>,
    turn: TurnModel,
    certificate: CertificateModel,
    proposal: ProposalModel,
    now: u64,
) -> (TurnModel, Flow) {
    certificate_step(
        context,
        with_effect(turn, certificate_message(certificate, proposal)),
        certificate,
        proposal.transaction_ids,
        proposal.fee_commitment,
        now,
    )
}

/// Once the wait for the fast path is over, the validator sends the prepare
/// certificate that it can form and votes to commit.
pub open spec fn prepare_stage<S: AggregateSignatureScheme>(
    context: ContextModel<S>,
    turn: TurnModel,
    proposal: ProposalModel,
    now: u64,
) -> TurnModel {
    let prepare = certified(
        context,
        CertificateKind::Prepare,
        turn.safety.height,
        turn.safety.view,
        proposal.block_id,
        turn.round.order_votes,
    );
    if !turn.round.flags.prepare_sent && since(now, turn.round.started)
        >= context.config.fast_path_wait_ms && prepare is Some {
        let marked = TurnModel {
            round: RoundModel {
                flags: RoundFlags { prepare_sent: true, ..turn.round.flags },
                ..turn.round
            },
            ..turn
        };
        prepare_step(
            context,
            with_effect(marked, certificate_message(prepare.unwrap(), proposal)),
            prepare.unwrap(),
            now,
        )
    } else {
        turn
    }
}

/// The validator forms the certificates that the gathered votes allow: a fast
/// one at once, a prepare one after a wait, a commit one after that.
pub open spec fn certify_stage<S: AggregateSignatureScheme>(
    context: ContextModel<S>,
    turn: TurnModel,
    now: u64,
) -> (TurnModel, Flow) {
    if context.faults.certificate_emission != CertificateEmission::Enabled {
        (turn, Flow::Continue)
    } else {
        match certifiable(turn.round) {
            None => (turn, Flow::Continue),
            Some(signed) => {
                let proposal = signed.proposal;
                match certified(
                    context,
                    CertificateKind::Fast,
                    turn.safety.height,
                    turn.safety.view,
                    proposal.block_id,
                    turn.round.order_votes,
                ) {
                    Some(certificate) => finish_step(context, turn, certificate, proposal, now),
                    None => {
                        let prepared = prepare_stage(context, turn, proposal, now);
                        match certified(
                            context,
                            CertificateKind::Commit,
                            turn.safety.height,
                            turn.safety.view,
                            proposal.block_id,
                            prepared.round.commit_votes,
                        ) {
                            Some(certificate) => finish_step(
                                context,
                                prepared,
                                certificate,
                                proposal,
                                now,
                            ),
                            None => (prepared, Flow::Continue),
                        }
                    },
                }
            },
        }
    }
}

/// The pacemaker: a round that has taken too long asks for a timeout vote, once.
pub open spec fn timeout_stage<S: AggregateSignatureScheme>(
    context: ContextModel<S>,
    turn: TurnModel,
    now: u64,
) -> (TurnModel, Flow) {
    if since(now, turn.round.started) >= timeout_of(
        context.config.round_timeout_ms,
        turn.safety.view,
    ) && !turn.round.flags.timeout_sent {
        let marked = TurnModel {
            round: RoundModel {
                flags: RoundFlags { timeout_sent: true, ..turn.round.flags },
                ..turn.round
            },
            ..turn
        };
        let (safety, result) = timeout_step(marked.safety, context.identity);
        match result {
            Err(error) => (
                TurnModel { safety, ..marked },
                Flow::Fail(CoordinatorError::Consensus(error)),
            ),
            Ok(None) => (TurnModel { safety, ..marked }, Flow::Continue),
            Ok(Some(vote)) => (
                TurnModel {
                    round: RoundModel {
                        timeout_votes: marked.round.timeout_votes.insert(vote.validator, vote),
                        ..marked.round
                    },
                    ..with_effect(
                        persisted(marked, safety),
                        EffectModel::Broadcast { message: WireModel::Vote(vote) },
                    )
                },
                Flow::Continue,
            ),
        }
    } else {
        (turn, Flow::Continue)
    }
}

/// A timeout certificate that the gathered votes allow starts the next view.
pub open spec fn advance_stage<S: AggregateSignatureScheme>(
    context: ContextModel<S>,
    turn: TurnModel,
    now: u64,
) -> (TurnModel, Flow) {
    match certified(
        context,
        CertificateKind::Timeout,
        turn.safety.height,
        turn.safety.view,
        zero_hash(),
        turn.round.timeout_votes,
    ) {
        None => (turn, Flow::Continue),
        Some(certificate) => {
            let sent = with_effect(
                turn,
                EffectModel::Broadcast {
                    message: WireModel::Certificate {
                        certificate,
                        transaction_ids: None,
                        fee_commitment: None,
                    },
                },
            );
            view_change_step(context, sent, certificate, now)
        },
    }
}

/// Applies a timeout certificate and starts the next view.
pub open spec fn view_change_step<S: AggregateSignatureScheme>(
    context: ContextModel<S>,
    turn: TurnModel,
    certificate: CertificateModel,
    now: u64,
) -> (TurnModel, Flow) {
    let (safety, result) = advance_step(turn.safety, context.identity, certificate);
    match result {
        Err(error) => (
            TurnModel { safety, ..turn },
            Flow::Fail(CoordinatorError::Consensus(error)),
        ),
        Ok(()) => (
            TurnModel { round: fresh_round(now, false), ..persisted(turn, safety) },
            Flow::Continue,
        ),
    }
}

/// What a tick of the clock does.
pub open spec fn tick_step<S: AggregateSignatureScheme>(
    context: ContextModel<S>,
    turn: TurnModel,
    now: u64,
    reply: ReplyModel,
) -> (TurnModel, Flow) {
    let (proposed, flow) = propose_stage(context, turn, now, reply);
    if flow is Fail {
        (proposed, flow)
    } else {
        let voted = resend_order_stage(context, vote_stage(context, proposed, now), now);
        let (certified, flow) = certify_stage(context, voted, now);
        if !(flow is Continue) {
            (certified, flow)
        } else {
            let (timed, flow) = timeout_stage(
                context,
                resend_commit_stage(context, certified, now),
                now,
            );
            if flow is Fail {
                (timed, flow)
            } else {
                advance_stage(context, timed, now)
            }
        }
    }
}

/// A received proposal is remembered and passed on, once; a second block in one
/// round shows that the leader equivocates.
pub open spec fn proposal_received<S: AggregateSignatureScheme>(
    context: ContextModel<S>,
    turn: TurnModel,
    sender: Hash256,
    signed: SignedProposalModel,
    now: u64,
) -> (TurnModel, Flow) {
    if sender != signed.proposal.proposer {
        (turn, Flow::Finish(None))
    } else {
        match proposal_check(signed, context.identity.table, context.identity.scheme) {
            Err(error) => (turn, Flow::Fail(CoordinatorError::Consensus(error))),
            Ok(()) => if signed.proposal.height != turn.safety.height || signed.proposal.view
                != turn.safety.view || context.faults.withhold_votes {
                (turn, Flow::Finish(None))
            } else {
                (proposal_observed(turn, signed, now), Flow::Finish(None))
            },
        }
    }
}

/// A valid proposal of the current round is remembered and passed on, once.
pub open spec fn proposal_observed(turn: TurnModel, signed: SignedProposalModel, now: u64) -> TurnModel {
    let block_id = signed.proposal.block_id;
    let round = turn.round;
    let observed = round.observed.insert(block_id, signed);
    let flags = RoundFlags {
        equivocation_detected: round.flags.equivocation_detected || observed.dom().len() > 1,
        ..round.flags
    };
    if round.observed.contains_key(block_id) {
        TurnModel { round: RoundModel { observed, flags, ..round }, ..turn }
    } else {
        let met = RoundModel {
            observed,
            flags,
            first_proposal_at: match round.first_proposal_at {
                Some(at) => Some(at),
                None => Some(now),
            },
            relayed: round.relayed.insert(block_id),
            ..round
        };
        if round.relayed.contains(block_id) {
            TurnModel { round: met, ..turn }
        } else {
            TurnModel {
                round: met,
                ..with_effect(turn, EffectModel::Broadcast { message: WireModel::Proposal(signed) })
            }
        }
    }
}

/// A received vote counts where it is its sender's own, of the current round and
/// validly signed; the first vote of a validator stands.
pub open spec fn vote_received<S: AggregateSignatureScheme>(
    context: ContextModel<S>,
    turn: TurnModel,
    sender: Hash256,
    vote: VoteModel,
) -> TurnModel {
    if sender != vote.validator || vote.height != turn.safety.height || vote.view
        != turn.safety.view || vote_check(
        vote,
        context.identity.table,
        context.identity.scheme,
    ) is Err {
        turn
    } else {
        let round = turn.round;
        TurnModel {
            round: match vote.phase {
                VotePhase::Order => RoundModel {
                    order_votes: with_first_vote(round.order_votes, vote),
                    ..round
                },
                VotePhase::Commit => RoundModel {
                    commit_votes: with_first_vote(round.commit_votes, vote),
                    ..round
                },
                VotePhase::Timeout => if vote.block_id == zero_hash() {
                    RoundModel { timeout_votes: with_first_vote(round.timeout_votes, vote), ..round }
                } else {
                    round
                },
            },
            ..turn
        }
    }
}

/// A validator that has fallen behind asks a peer to replay what it misses, at
/// most once per interval.
pub open spec fn catchup_request(turn: TurnModel, peer: Hash256, now: u64) -> TurnModel {
    if turn.requested_at matches Some(last) && since(now, last) < CATCHUP_REQUEST_INTERVAL_MS {
        turn
    } else {
        TurnModel {
            requested_at: Some(now),
            ..with_effect(
                turn,
                EffectModel::Send {
                    peer,
                    message: WireModel::RequestOrders { from_height: turn.safety.height },
                },
            )
        }
    }
}

/// Why the order that comes with a certificate is refused; `None` where it is
/// the one that was certified, or the certificate certifies none.
pub open spec fn certified_order_refusal(
    safety: SafetyState,
    certificate: CertificateModel,
    transaction_ids: Option<Seq<Hash256>>,
    fee_commitment: Option<Hash256>,
) -> Option<CoordinatorError> {
    if certificate.kind == CertificateKind::Timeout {
        if transaction_ids is Some || fee_commitment is Some {
            Some(CoordinatorError::InvalidCertifiedOrder)
        } else {
            None
        }
    } else if transaction_ids is None || fee_commitment is None {
        Some(CoordinatorError::MissingCertifiedOrder)
    } else if block_id_of(
        certificate.height,
        safety.parent_id,
        transaction_ids.unwrap(),
        fee_commitment.unwrap(),
    ) != certificate.block_id {
        Some(CoordinatorError::InvalidCertifiedOrder)
    } else {
        None
    }
}

/// A received certificate is applied to the current height, whoever of the
/// validators passes it on; one of a later height shows that this validator has
/// fallen behind.
pub open spec fn certificate_received<S: AggregateSignatureScheme>(
    context: ContextModel<S>,
    turn: TurnModel,
    sender: Hash256,
    certificate: CertificateModel,
    transaction_ids: Option<Seq<Hash256>>,
    fee_commitment: Option<Hash256>,
    now: u64,
) -> (TurnModel, Flow) {
    if member(context.identity.table, sender) is None {
        (turn, Flow::Finish(None))
    } else {
        match certificate_check(certificate, context.identity.table, context.identity.scheme) {
            Err(error) => (turn, Flow::Fail(CoordinatorError::Consensus(error))),
            Ok(()) => if certificate.height > turn.safety.height {
                (catchup_request(turn, sender, now), Flow::Finish(None))
            } else if certificate.height < turn.safety.height {
                (turn, Flow::Finish(None))
            } else {
                match certified_order_refusal(
                    turn.safety,
                    certificate,
                    transaction_ids,
                    fee_commitment,
                ) {
                    Some(error) => (turn, Flow::Fail(error)),
                    None => match certificate.kind {
                        CertificateKind::Prepare => (
                            prepare_step(context, turn, certificate, now),
                            Flow::Finish(None),
                        ),
                        CertificateKind::Timeout => if certificate.view == turn.safety.view {
                            let (changed, flow) = view_change_step(context, turn, certificate, now);
                            (
                                changed,
                                match flow {
                                    Flow::Fail(error) => Flow::Fail(error),
                                    _ => Flow::Finish(None),
                                },
                            )
                        } else {
                            (turn, Flow::Finish(None))
                        },
                        _ => certificate_step(
                            context,
                            turn,
                            certificate,
                            transaction_ids.unwrap(),
                            fee_commitment.unwrap(),
                            now,
                        ),
                    },
                }
            },
        }
    }
}

/// Whether a replayed order can be applied at the current height.
pub open spec fn replayable<S: AggregateSignatureScheme>(
    context: ContextModel<S>,
    safety: SafetyState,
    order: OrderModel,
) -> bool {
    &&& order.height == safety.height
    &&& order.certificate.kind == CertificateKind::Fast || order.certificate.kind
        == CertificateKind::Commit
    &&& order.certificate.height == order.height
    &&& order.certificate.block_id == order.block_id
    &&& certificate_check(
        order.certificate,
        context.identity.table,
        context.identity.scheme,
    ) is Ok
    &&& block_id_of(
        order.certificate.height,
        safety.parent_id,
        order.transaction_ids,
        order.fee_commitment,
    ) == order.certificate.block_id
}

/// Replays orders: those below the current height are skipped, and the first one
/// that does not fit ends the batch without failing.
pub open spec fn replayed<S: AggregateSignatureScheme>(
    context: ContextModel<S>,
    turn: TurnModel,
    orders: Seq<OrderModel>,
    last: Option<CoordinatorOutcome>,
) -> (TurnModel, Result<Option<CoordinatorOutcome>, CoordinatorError>)
    decreases orders.len(),
{
    if orders.len() == 0 {
        (turn, Ok(last))
    } else if orders[0].height < turn.safety.height {
        replayed(context, turn, orders.drop_first(), last)
    } else if !replayable(context, turn.safety, orders[0]) {
        (turn, Ok(last))
    } else {
        let (committed, result) = commit_order_step(context, turn, orders[0], 0);
        match result {
            Err(error) => (committed, Err(error)),
            Ok(outcome) => replayed(context, committed, orders.drop_first(), Some(outcome)),
        }
    }
}

/// What a batch of replayed orders does.
pub open spec fn orders_received<S: AggregateSignatureScheme>(
    context: ContextModel<S>,
    turn: TurnModel,
    orders: Seq<OrderModel>,
    now: u64,
) -> (TurnModel, Flow) {
    let (replayed, result) = replayed(context, turn, orders, None);
    match result {
        Err(error) => (replayed, Flow::Fail(error)),
        Ok(None) => (replayed, Flow::Finish(None)),
        Ok(Some(outcome)) => (
            TurnModel { round: fresh_round(now, true), ..replayed },
            Flow::Finish(Some(outcome)),
        ),
    }
}

/// What a received message does.
pub open spec fn handle_step<S: AggregateSignatureScheme>(
    context: ContextModel<S>,
    turn: TurnModel,
    sender: Hash256,
    message: WireModel,
    now: u64,
) -> (TurnModel, Flow) {
    match message {
        WireModel::Proposal(signed) => proposal_received(context, turn, sender, signed, now),
        WireModel::Vote(vote) => (
            vote_received(context, turn, sender, vote),
            Flow::Finish(None),
        ),
        WireModel::Certificate { certificate, transaction_ids, fee_commitment } => {
            certificate_received(
                context,
                turn,
                sender,
                certificate,
                transaction_ids,
                fee_commitment,
                now,
            )
        },
        WireModel::RequestOrders { from_height } => (
            with_effect(turn, EffectModel::ServeOrders { peer: sender, from_height }),
            Flow::Finish(None),
        ),
        WireModel::Orders(orders) => orders_received(context, turn, orders, now),
    }
}

} // verus!
