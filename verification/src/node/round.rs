//! What a validator remembers of the round it is in, and what it exchanges.

use vstd::prelude::*;

use crate::consensus::certificates::{CertificateModel, QuorumCertificate};
use crate::consensus::proposals::{
    FinalizedOrder, OrderModel, SignedProposal, SignedProposalModel,
};
use crate::consensus::replica::{ReplicaSnapshot, SafetyState};
use crate::consensus::votes::{Vote, VoteModel};
use crate::ordered::{sorted_keys, OrderedMap, OrderedSet};
use crate::types::Hash256;

verus! {

/// How far a validator got, as reported to its operator.
#[derive(Clone, Copy, Debug, PartialEq, Eq)]
pub struct CoordinatorOutcome {
    pub finalized_height: u64,
    pub finalized_block: Hash256,
    pub finality_latency_ms: u64,
    pub view_changes: u64,
}

/// What validators send each other.
#[derive(Debug)]
pub enum WireMessage {
    Proposal(SignedProposal),
    Vote(Vote),
    Certificate {
        certificate: QuorumCertificate,
        transaction_ids: Option<Vec<Hash256>>,
        fee_commitment: Option<Hash256>,
    },
    /// "I am behind; send me finalized orders starting at this height." Sent by
    /// a validator that saw a certificate for a height beyond its own.
    RequestOrders { from_height: u64 },
    /// A contiguous batch of retained finalized orders answering a request,
    /// ascending from the requested height.
    Orders(Vec<FinalizedOrder>),
}

/// A message with the validator that sent it.
#[derive(Debug)]
pub struct Envelope {
    pub sender: Hash256,
    pub message: WireMessage,
}

/// The value of a message.
pub enum WireModel {
    Proposal(SignedProposalModel),
    Vote(VoteModel),
    Certificate {
        certificate: CertificateModel,
        transaction_ids: Option<Seq<Hash256>>,
        fee_commitment: Option<Hash256>,
    },
    RequestOrders { from_height: u64 },
    Orders(Seq<OrderModel>),
}

/// The values of finalized orders.
pub open spec fn orders_of(orders: Seq<FinalizedOrder>) -> Seq<OrderModel> {
    orders.map_values(|order: FinalizedOrder| order@)
}

/// The value of an optional list of identifiers.
pub open spec fn optional_ids(ids: Option<Vec<Hash256>>) -> Option<Seq<Hash256>> {
    match ids {
        Some(list) => Some(list@),
        None => None,
    }
}

impl View for WireMessage {
    type V = WireModel;

    open spec fn view(&self) -> WireModel {
        match self {
            WireMessage::Proposal(signed) => WireModel::Proposal(signed@),
            WireMessage::Vote(vote) => WireModel::Vote(vote@),
            WireMessage::Certificate { certificate, transaction_ids, fee_commitment } => {
                WireModel::Certificate {
                    certificate: certificate@,
                    transaction_ids: optional_ids(*transaction_ids),
                    fee_commitment: *fee_commitment,
                }
            },
            WireMessage::RequestOrders { from_height } => WireModel::RequestOrders {
                from_height: *from_height,
            },
            WireMessage::Orders(orders) => WireModel::Orders(orders_of(orders@)),
        }
    }
}

/// What the node does for the coordinator, in order. A failure to perform one
/// ends the coordinator before the next.
#[derive(Debug)]
pub enum Effect {
    /// Store the safety state durably.
    Persist { snapshot: ReplicaSnapshot },
    /// Send a message to every other validator.
    Broadcast { message: WireMessage },
    /// Send a message to one validator.
    Send { peer: Hash256, message: WireMessage },
    /// Report the outcome, retain the order and hand it to execution.
    Finalize { order: FinalizedOrder, outcome: CoordinatorOutcome },
    /// Send a validator the retained orders from a height on.
    ServeOrders { peer: Hash256, from_height: u64 },
}

/// The value of an effect.
pub enum EffectModel {
    Persist { state: SafetyState },
    Broadcast { message: WireModel },
    Send { peer: Hash256, message: WireModel },
    Finalize { order: OrderModel, outcome: CoordinatorOutcome },
    ServeOrders { peer: Hash256, from_height: u64 },
}

impl View for Effect {
    type V = EffectModel;

    open spec fn view(&self) -> EffectModel {
        match self {
            Effect::Persist { snapshot } => EffectModel::Persist { state: snapshot@ },
            Effect::Broadcast { message } => EffectModel::Broadcast { message: message@ },
            Effect::Send { peer, message } => EffectModel::Send { peer: *peer, message: message@ },
            Effect::Finalize { order, outcome } => EffectModel::Finalize {
                order: order@,
                outcome: *outcome,
            },
            Effect::ServeOrders { peer, from_height } => EffectModel::ServeOrders {
                peer: *peer,
                from_height: *from_height,
            },
        }
    }
}

/// The values of effects.
pub open spec fn effects_of(effects: Seq<Effect>) -> Seq<EffectModel> {
    effects.map_values(|effect: Effect| effect@)
}

/// Adds an effect.
pub fn perform(effects: &mut Vec<Effect>, effect: Effect)
    ensures
        effects_of(final(effects)@) == effects_of(old(effects)@).push(effect@),
{
    effects.push(effect);
    assert(effects_of(effects@) =~= effects_of(old(effects)@).push(effect@));
}

/// What a validator remembers of its round. Times are milliseconds of a clock
/// that never goes back.
pub struct RoundState {
    pub started: u64,
    pub height_started: u64,
    pub follows_commit: bool,
    pub last_proposal_broadcast: u64,
    pub proposal: Option<SignedProposal>,
    pub observed_proposals: OrderedMap<Hash256, SignedProposal>,
    pub relayed_proposals: OrderedSet<Hash256>,
    pub first_proposal_at: Option<u64>,
    /// The already-signed order vote is retransmitted until a certificate
    /// arrives. Once an order vote is cast this protocol forbids a timeout vote
    /// in the same view, so a lost one-shot send would otherwise strand it.
    pub proposal_vote: Option<Vote>,
    pub last_proposal_vote_sent: Option<u64>,
    /// The already-signed fallback commit vote is likewise retransmitted until
    /// a commit certificate arrives.
    pub commit_vote: Option<Vote>,
    pub last_commit_vote_sent: Option<u64>,
    pub order_votes: OrderedMap<Hash256, Vote>,
    pub commit_votes: OrderedMap<Hash256, Vote>,
    pub timeout_votes: OrderedMap<Hash256, Vote>,
    pub flags: RoundFlags,
}

/// What has happened once in a round.
#[derive(Clone, Copy, Debug, PartialEq, Eq, Structural)]
pub struct RoundFlags {
    pub prepare_sent: bool,
    pub timeout_sent: bool,
    pub equivocation_sent: bool,
    pub equivocation_detected: bool,
    pub proposal_vote_sent: bool,
}

/// The value of what a validator remembers of its round.
pub struct RoundModel {
    pub started: u64,
    pub height_started: u64,
    pub follows_commit: bool,
    pub last_proposal_broadcast: u64,
    pub proposal: Option<SignedProposalModel>,
    pub observed: Map<Hash256, SignedProposalModel>,
    pub relayed: Set<Hash256>,
    pub first_proposal_at: Option<u64>,
    pub proposal_vote: Option<VoteModel>,
    pub last_proposal_vote_sent: Option<u64>,
    pub commit_vote: Option<VoteModel>,
    pub last_commit_vote_sent: Option<u64>,
    pub order_votes: Map<Hash256, VoteModel>,
    pub commit_votes: Map<Hash256, VoteModel>,
    pub timeout_votes: Map<Hash256, VoteModel>,
    pub flags: RoundFlags,
}

/// The values of votes by validator.
pub open spec fn votes_of(votes: Map<Hash256, Vote>) -> Map<Hash256, VoteModel> {
    votes.map_values(|vote: Vote| vote@)
}

/// The values of proposals by block.
pub open spec fn proposals_of(proposals: Map<Hash256, SignedProposal>) -> Map<
    Hash256,
    SignedProposalModel,
> {
    proposals.map_values(|signed: SignedProposal| signed@)
}

/// The value of an optional vote.
pub open spec fn optional_vote(vote: Option<Vote>) -> Option<VoteModel> {
    match vote {
        Some(vote) => Some(vote@),
        None => None,
    }
}

/// The value of an optional proposal.
pub open spec fn optional_proposal(proposal: Option<SignedProposal>) -> Option<
    SignedProposalModel,
> {
    match proposal {
        Some(signed) => Some(signed@),
        None => None,
    }
}

impl View for RoundState {
    type V = RoundModel;

    open spec fn view(&self) -> RoundModel {
        RoundModel {
            started: self.started,
            height_started: self.height_started,
            follows_commit: self.follows_commit,
            last_proposal_broadcast: self.last_proposal_broadcast,
            proposal: optional_proposal(self.proposal),
            observed: proposals_of(self.observed_proposals@),
            relayed: self.relayed_proposals@,
            first_proposal_at: self.first_proposal_at,
            proposal_vote: optional_vote(self.proposal_vote),
            last_proposal_vote_sent: self.last_proposal_vote_sent,
            commit_vote: optional_vote(self.commit_vote),
            last_commit_vote_sent: self.last_commit_vote_sent,
            order_votes: votes_of(self.order_votes@),
            commit_votes: votes_of(self.commit_votes@),
            timeout_votes: votes_of(self.timeout_votes@),
            flags: self.flags,
        }
    }
}

/// Flags of a round in which nothing has happened.
pub open spec fn no_flags() -> RoundFlags {
    RoundFlags {
        prepare_sent: false,
        timeout_sent: false,
        equivocation_sent: false,
        equivocation_detected: false,
        proposal_vote_sent: false,
    }
}

/// A round that starts now.
pub open spec fn fresh_round(now: u64, follows_commit: bool) -> RoundModel {
    RoundModel {
        started: now,
        height_started: now,
        follows_commit,
        last_proposal_broadcast: now,
        proposal: None,
        observed: Map::empty(),
        relayed: Set::empty(),
        first_proposal_at: None,
        proposal_vote: None,
        last_proposal_vote_sent: None,
        commit_vote: None,
        last_commit_vote_sent: None,
        order_votes: Map::empty(),
        commit_votes: Map::empty(),
        timeout_votes: Map::empty(),
        flags: no_flags(),
    }
}

/// The milliseconds since a point in time; none if it lies ahead.
pub open spec fn since(now: u64, point: u64) -> u64 {
    if now >= point {
        (now - point) as u64
    } else {
        0
    }
}

/// Whether a first value of a map by key order exists, and which it is.
pub open spec fn first_value<V>(map: Map<Hash256, V>) -> Option<V> {
    let keys = sorted_keys(map.dom());
    if keys.len() == 0 {
        None
    } else {
        Some(map[keys[0]])
    }
}

/// The proposal that votes are gathered for: the validator's own, or else the
/// observed one with the lowest block identifier.
pub open spec fn certifiable(round: RoundModel) -> Option<SignedProposalModel> {
    match round.proposal {
        Some(signed) => Some(signed),
        None => first_value(round.observed),
    }
}

/// Whether a leader holds back an empty proposal after a commit.
pub open spec fn defers_empty(round: RoundModel, margin: u64, source_is_empty: bool, now: u64) -> bool {
    round.follows_commit && source_is_empty && since(now, round.height_started) < margin
}

/// The milliseconds since a point in time; none if it lies ahead.
pub fn elapsed(now: u64, point: u64) -> (passed: u64)
    ensures
        passed == since(now, point),
{
    if now >= point {
        now - point
    } else {
        0
    }
}

impl RoundState {
    fn starting(now: u64, follows_commit: bool) -> (round: Self)
        ensures
            round@ == fresh_round(now, follows_commit),
    {
        let round = RoundState {
            started: now,
            height_started: now,
            follows_commit,
            last_proposal_broadcast: now,
            proposal: None,
            observed_proposals: OrderedMap::new(),
            relayed_proposals: OrderedSet::new(),
            first_proposal_at: None,
            proposal_vote: None,
            last_proposal_vote_sent: None,
            commit_vote: None,
            last_commit_vote_sent: None,
            order_votes: OrderedMap::new(),
            commit_votes: OrderedMap::new(),
            timeout_votes: OrderedMap::new(),
            flags: RoundFlags {
                prepare_sent: false,
                timeout_sent: false,
                equivocation_sent: false,
                equivocation_detected: false,
                proposal_vote_sent: false,
            },
        };
        proof {
            assert(votes_of(Map::empty()) =~= Map::<Hash256, VoteModel>::empty());
            assert(proposals_of(Map::empty()) =~= Map::<Hash256, SignedProposalModel>::empty());
        }
        round
    }

    /// A round that starts now, within a height or at startup.
    pub fn new(now: u64) -> (round: Self)
        ensures
            round@ == fresh_round(now, false),
    {
        Self::starting(now, false)
    }

    /// The first round after a committed height, starting now.
    pub fn new_height(now: u64) -> (round: Self)
        ensures
            round@ == fresh_round(now, true),
    {
        Self::starting(now, true)
    }

    /// Whether an injected proposal delay is over.
    pub fn proposal_delay_elapsed(&self, delay: u64, now: u64) -> (over: bool)
        ensures
            over == (since(now, self@.started) >= delay),
    {
        elapsed(now, self.started) >= delay
    }

    /// Whether to wait for transaction gossip before an empty proposal.
    pub fn should_defer_empty_proposal(&self, margin: u64, source_is_empty: bool, now: u64) -> (defer:
        bool)
        ensures
            defer == defers_empty(self@, margin, source_is_empty, now),
    {
        self.follows_commit && source_is_empty && elapsed(now, self.height_started) < margin
    }

    /// The observed proposal with the lowest block identifier.
    pub fn first_observed(&self) -> (signed: Option<&SignedProposal>)
        ensures
            match signed {
                Some(signed) => first_value(self@.observed) == Some(signed@),
                None => first_value(self@.observed) is None,
            },
    {
        let keys = self.observed_proposals.keys();
        proof {
            assert(self@.observed.dom() =~= self.observed_proposals@.dom());
        }
        if keys.len() == 0 {
            return None;
        }
        assert(keys@.contains(keys@[0]));
        self.observed_proposals.get(&keys[0])
    }

    /// The proposal that votes are gathered for.
    pub fn proposal_for_certification(&self) -> (signed: Option<&SignedProposal>)
        ensures
            match signed {
                Some(signed) => certifiable(self@) == Some(signed@),
                None => certifiable(self@) is None,
            },
    {
        match &self.proposal {
            Some(signed) => Some(signed),
            None => self.first_observed(),
        }
    }
}

/// Records a vote, replacing an earlier one of its validator.
pub fn record_vote(votes: &mut OrderedMap<Hash256, Vote>, vote: Vote)
    ensures
        votes_of(final(votes)@) == votes_of(old(votes)@).insert(vote@.validator, vote@),
{
    let _ = votes.insert(vote.validator, vote);
    assert(votes_of(votes@) =~= votes_of(old(votes)@).insert(vote@.validator, vote@));
}

/// The votes with one more, unless its validator has voted.
pub open spec fn with_first_vote(votes: Map<Hash256, VoteModel>, vote: VoteModel) -> Map<
    Hash256,
    VoteModel,
> {
    if votes.contains_key(vote.validator) {
        votes
    } else {
        votes.insert(vote.validator, vote)
    }
}

/// Records a vote, unless its validator has voted.
pub fn record_first_vote(votes: &mut OrderedMap<Hash256, Vote>, vote: Vote)
    ensures
        votes_of(final(votes)@) == with_first_vote(votes_of(old(votes)@), vote@),
{
    if !votes.contains_key(&vote.validator) {
        record_vote(votes, vote);
    }
}

} // verus!
