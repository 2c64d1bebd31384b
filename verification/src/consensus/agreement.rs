//! Agreement: replicas that follow the protocol never finalize two blocks at one
//! height, as long as less than one fifth of the stake is Byzantine.

use vstd::prelude::*;

use crate::consensus::certificates::{
    certificate_check, law_accepted_certificate_has_quorum, percent_of, phase_of, CertificateKind,
    CertificateModel,
};
use crate::consensus::replica::{
    first_round_exclusive, law_first_round_votes_stay_exclusive, law_replica_never_double_votes,
    replica_step, unlocks, ReplicaEvent, ReplicaIdentity, SafetyState, VoteSlot,
};
use crate::consensus::validators::{
    fault_budget, law_fallback_quorums_share_an_honest_validator,
    law_fast_and_timeout_quorums_share_an_honest_validator, lemma_heavier_set_has_another,
    stake_of, threshold_of, total_of, valid_table, ValidatorModel,
};
use crate::consensus::votes::VotePhase;
use crate::crypto::AggregateSignatureScheme;
use crate::types::Hash256;

verus! {

/// The validators that do not follow the protocol: all that no state is kept of.
pub open spec fn faulty(replicas: Map<Hash256, SafetyState>) -> Set<Hash256> {
    Set::new(|id: Hash256| !replicas.contains_key(id))
}

/// Whether a replica cast a vote for a block.
pub open spec fn has_vote(state: SafetyState, slot: VoteSlot, block_id: Hash256) -> bool {
    state.votes.contains_key(slot) && state.votes[slot] == block_id
}

/// Who can have voted for a block: the replicas that did, and the faulty.
pub open spec fn backers(
    replicas: Map<Hash256, SafetyState>,
    slot: VoteSlot,
    block_id: Hash256,
) -> Set<Hash256> {
    Set::new(
        |id: Hash256| !replicas.contains_key(id) || has_vote(replicas[id], slot, block_id),
    )
}

/// Who can have voted in a slot for whatever block.
pub open spec fn voters(replicas: Map<Hash256, SafetyState>, slot: VoteSlot) -> Set<Hash256> {
    Set::new(|id: Hash256| !replicas.contains_key(id) || replicas[id].votes.contains_key(slot))
}

/// Whether a replica voted to commit a block in a view, or still can.
pub open spec fn can_commit(state: SafetyState, height: u64, view: u64, block_id: Hash256) -> bool {
    let slot = VoteSlot { height, view, phase: VotePhase::Commit };
    has_vote(state, slot, block_id) || (!state.votes.contains_key(slot) && (state.height < height
        || (state.height == height && state.view <= view)))
}

/// Who may yet be among the commit voters of a block.
pub open spec fn committers(
    replicas: Map<Hash256, SafetyState>,
    height: u64,
    view: u64,
    block_id: Hash256,
) -> Set<Hash256> {
    Set::new(
        |id: Hash256|
            !replicas.contains_key(id) || can_commit(replicas[id], height, view, block_id),
    )
}

/// Whether 60% of the stake can have notarized a block in a view.
pub open spec fn ordered(
    table: Seq<ValidatorModel>,
    replicas: Map<Hash256, SafetyState>,
    height: u64,
    view: u64,
    block_id: Hash256,
) -> bool {
    stake_of(
        table,
        backers(replicas, VoteSlot { height, view, phase: VotePhase::Order }, block_id),
    ) >= threshold_of(total_of(table), 60)
}

/// Whether 80% of the stake can have notarized a block in a view.
pub open spec fn fast(
    table: Seq<ValidatorModel>,
    replicas: Map<Hash256, SafetyState>,
    height: u64,
    view: u64,
    block_id: Hash256,
) -> bool {
    stake_of(
        table,
        backers(replicas, VoteSlot { height, view, phase: VotePhase::Order }, block_id),
    ) >= threshold_of(total_of(table), 80)
}

/// Whether 60% of the stake can have voted to commit a block in a view.
pub open spec fn committed(
    table: Seq<ValidatorModel>,
    replicas: Map<Hash256, SafetyState>,
    height: u64,
    view: u64,
    block_id: Hash256,
) -> bool {
    stake_of(
        table,
        backers(replicas, VoteSlot { height, view, phase: VotePhase::Commit }, block_id),
    ) >= threshold_of(total_of(table), 60)
}

/// Whether 60% of the stake can have given a view up.
pub open spec fn abandoned(
    table: Seq<ValidatorModel>,
    replicas: Map<Hash256, SafetyState>,
    height: u64,
    view: u64,
) -> bool {
    stake_of(
        table,
        voters(replicas, VoteSlot { height, view, phase: VotePhase::Timeout }),
    ) >= threshold_of(total_of(table), 60)
}

/// Whether a block is decided in a view, in one round or in two.
pub open spec fn decided_in(
    table: Seq<ValidatorModel>,
    replicas: Map<Hash256, SafetyState>,
    height: u64,
    view: u64,
    block_id: Hash256,
) -> bool {
    fast(table, replicas, height, view, block_id) || committed(
        table,
        replicas,
        height,
        view,
        block_id,
    )
}

/// Whether a block is decided at a height.
pub open spec fn decided(
    table: Seq<ValidatorModel>,
    replicas: Map<Hash256, SafetyState>,
    height: u64,
    block_id: Hash256,
) -> bool {
    exists|view: u64| #[trigger] decided_in(table, replicas, height, view, block_id)
}

/// Whether another block was notarized after a view.
pub open spec fn contested(
    table: Seq<ValidatorModel>,
    replicas: Map<Hash256, SafetyState>,
    height: u64,
    view: u64,
    block_id: Hash256,
) -> bool {
    exists|later: u64, other: Hash256| #[trigger]
        ordered(table, replicas, height, later, other) && view < later && other != block_id
}

/// Whether the votes in a certificate are votes that its signers cast: what
/// unforgeable signatures make of one that verifies.
pub open spec fn genuine(
    replicas: Map<Hash256, SafetyState>,
    certificate: CertificateModel,
) -> bool {
    forall|i: int|
        0 <= i < certificate.signers.len() ==> #[trigger] backers(
            replicas,
            certificate_slot(certificate),
            certificate.block_id,
        ).contains(certificate.signers[i])
}

/// The slot of the votes that a certificate combines.
pub open spec fn certificate_slot(certificate: CertificateModel) -> VoteSlot {
    VoteSlot {
        height: certificate.height,
        view: certificate.view,
        phase: phase_of(certificate.kind),
    }
}

/// One event at one replica.
pub struct Turn<S> {
    pub identity: ReplicaIdentity<S>,
    pub event: ReplicaEvent,
}

/// Whether a certificate is genuine where it verifies.
pub open spec fn authentic<S: AggregateSignatureScheme>(
    replicas: Map<Hash256, SafetyState>,
    identity: ReplicaIdentity<S>,
    certificate: CertificateModel,
) -> bool {
    certificate_check(certificate, identity.table, identity.scheme) is Ok ==> genuine(
        replicas,
        certificate,
    )
}

/// Whether every certificate that reaches a replica is authentic.
pub open spec fn authentic_turn<S: AggregateSignatureScheme>(
    replicas: Map<Hash256, SafetyState>,
    turn: Turn<S>,
) -> bool {
    match turn.event {
        ReplicaEvent::Proposed(proposal) => proposal.justify matches Some(justify) ==> authentic(
            replicas,
            turn.identity,
            justify,
        ),
        ReplicaEvent::Prepared(certificate) => authentic(replicas, turn.identity, certificate),
        ReplicaEvent::TimerExpired => true,
        ReplicaEvent::TimedOut(certificate) => authentic(replicas, turn.identity, certificate),
        ReplicaEvent::Certified(certificate) => authentic(replicas, turn.identity, certificate),
    }
}

/// The replicas after a turn.
pub open spec fn after_turn<S: AggregateSignatureScheme>(
    replicas: Map<Hash256, SafetyState>,
    turn: Turn<S>,
) -> Map<Hash256, SafetyState> {
    let id = turn.identity.id;
    if replicas.contains_key(id) {
        replicas.insert(id, replica_step(replicas[id], turn.identity, turn.event).0)
    } else {
        replicas
    }
}

/// The replicas after a run.
pub open spec fn after_turns<S: AggregateSignatureScheme>(
    replicas: Map<Hash256, SafetyState>,
    turns: Seq<Turn<S>>,
) -> Map<Hash256, SafetyState>
    decreases turns.len(),
{
    if turns.len() == 0 {
        replicas
    } else {
        after_turn(after_turns(replicas, turns.drop_last()), turns.last())
    }
}

/// Whether a run goes by one stake table and authentic certificates.
pub open spec fn authentic_turns<S: AggregateSignatureScheme>(
    table: Seq<ValidatorModel>,
    replicas: Map<Hash256, SafetyState>,
    turns: Seq<Turn<S>>,
) -> bool
    decreases turns.len(),
{
    turns.len() > 0 ==> {
        &&& authentic_turns(table, replicas, turns.drop_last())
        &&& turns.last().identity.table == table
        &&& authentic_turn(after_turns(replicas, turns.drop_last()), turns.last())
    }
}

/// The state of a replica that has not voted yet.
pub open spec fn fresh(state: SafetyState) -> bool {
    &&& state.view == 0
    &&& state.lock is None
    &&& state.votes == Map::<VoteSlot, Hash256>::empty()
    &&& state.finalized == Map::<u64, Hash256>::empty()
}

/// The fault model: a valid table, and less than one fifth of its stake faulty.
pub open spec fn fault_model(
    table: Seq<ValidatorModel>,
    replicas: Map<Hash256, SafetyState>,
) -> bool {
    &&& valid_table(table)
    &&& total_of(table) * 80 <= u128::MAX
    &&& fault_budget(total_of(table), stake_of(table, faulty(replicas)), 0) is Ok
}

/// What a replica keeps by itself: it votes in no round it has not reached, and
/// its lock is at least as recent as each of its commit votes at its height.
pub open spec fn disciplined(state: SafetyState) -> bool {
    &&& first_round_exclusive(state.votes)
    &&& forall|slot: VoteSlot| #[trigger]
        state.votes.contains_key(slot) ==> slot.height < state.height || (slot.height
            == state.height && slot.view <= state.view)
    &&& state.lock matches Some(lock) ==> lock.height == state.height && lock.view <= state.view
    &&& forall|slot: VoteSlot|
        (#[trigger] state.votes.contains_key(slot) && slot.height == state.height && slot.phase
            == VotePhase::Commit) ==> (state.lock matches Some(lock) && slot.view <= lock.view && (
        slot.view == lock.view ==> lock.block_id == state.votes[slot]))
}

/// What the votes of all stand behind in the state of one replica.
pub open spec fn supported(
    table: Seq<ValidatorModel>,
    replicas: Map<Hash256, SafetyState>,
    state: SafetyState,
) -> bool {
    &&& forall|view: u64| view < state.view ==> #[trigger] abandoned(
        table,
        replicas,
        state.height,
        view,
    )
    &&& forall|slot: VoteSlot, view: u64|
        (#[trigger] state.votes.contains_key(slot) && view < slot.view) ==> #[trigger] abandoned(
            table,
            replicas,
            slot.height,
            view,
        )
    &&& state.lock matches Some(lock) ==> ordered(
        table,
        replicas,
        lock.height,
        lock.view,
        lock.block_id,
    )
    &&& forall|slot: VoteSlot|
        (#[trigger] state.votes.contains_key(slot) && slot.phase == VotePhase::Commit) ==> ordered(
            table,
            replicas,
            slot.height,
            slot.view,
            state.votes[slot],
        )
    &&& forall|height: u64| #[trigger]
        state.finalized.contains_key(height) ==> decided(
            table,
            replicas,
            height,
            state.finalized[height],
        )
}

/// Whether a replica voted to commit a block and notarized another one later.
pub open spec fn strayed(
    state: SafetyState,
    height: u64,
    view: u64,
    block_id: Hash256,
    later: u64,
    other: Hash256,
) -> bool {
    &&& has_vote(state, VoteSlot { height, view, phase: VotePhase::Commit }, block_id)
    &&& has_vote(state, VoteSlot { height, view: later, phase: VotePhase::Order }, other)
    &&& view < later
    &&& other != block_id
}

/// A replica strays from a commit vote only after the block was contested.
pub open spec fn excused(
    table: Seq<ValidatorModel>,
    replicas: Map<Hash256, SafetyState>,
    state: SafetyState,
) -> bool {
    forall|height: u64, view: u64, block_id: Hash256, later: u64, other: Hash256| #[trigger]
        strayed(state, height, view, block_id, later, other) ==> contested(
            table,
            replicas,
            height,
            view,
            block_id,
        )
}

/// A contested block can no longer gather a commit quorum.
pub open spec fn settled(
    table: Seq<ValidatorModel>,
    replicas: Map<Hash256, SafetyState>,
) -> bool {
    forall|height: u64, view: u64, block_id: Hash256| #[trigger]
        contested(table, replicas, height, view, block_id) ==> stake_of(
            table,
            committers(replicas, height, view, block_id),
        ) < threshold_of(total_of(table), 60)
}

/// What every run keeps.
pub open spec fn sound(
    table: Seq<ValidatorModel>,
    replicas: Map<Hash256, SafetyState>,
) -> bool {
    &&& forall|id: Hash256| #[trigger]
        replicas.contains_key(id) ==> disciplined(replicas[id]) && supported(
            table,
            replicas,
            replicas[id],
        ) && excused(table, replicas, replicas[id])
    &&& settled(table, replicas)
}

/// Whether replicas only added votes.
pub open spec fn extends(
    before: Map<Hash256, SafetyState>,
    after: Map<Hash256, SafetyState>,
) -> bool {
    &&& forall|id: Hash256| before.contains_key(id) <==> after.contains_key(id)
    &&& forall|id: Hash256, slot: VoteSlot| #![trigger after[id].votes.contains_key(slot)]
        #![trigger before[id].votes.contains_key(slot)]
        before.contains_key(id) && before[id].votes.contains_key(slot)
            ==> after[id].votes.contains_key(slot) && after[id].votes[slot]
            == before[id].votes[slot]
}

/// A larger set has at least the stake.
proof fn lemma_stake_grows(table: Seq<ValidatorModel>, smaller: Set<Hash256>, larger: Set<Hash256>)
    requires
        forall|id: Hash256| smaller.contains(id) ==> larger.contains(id),
    ensures
        stake_of(table, smaller) <= stake_of(table, larger),
    decreases table.len(),
{
    if table.len() > 0 {
        lemma_stake_grows(table.drop_last(), smaller, larger);
    }
}

proof fn lemma_ordered_grows(
    table: Seq<ValidatorModel>,
    before: Map<Hash256, SafetyState>,
    after: Map<Hash256, SafetyState>,
    height: u64,
    view: u64,
    block_id: Hash256,
)
    requires
        extends(before, after),
        ordered(table, before, height, view, block_id),
    ensures
        ordered(table, after, height, view, block_id),
{
    let slot = VoteSlot { height, view, phase: VotePhase::Order };
    lemma_stake_grows(table, backers(before, slot, block_id), backers(after, slot, block_id));
}

proof fn lemma_abandoned_grows(
    table: Seq<ValidatorModel>,
    before: Map<Hash256, SafetyState>,
    after: Map<Hash256, SafetyState>,
    height: u64,
    view: u64,
)
    requires
        extends(before, after),
        abandoned(table, before, height, view),
    ensures
        abandoned(table, after, height, view),
{
    let slot = VoteSlot { height, view, phase: VotePhase::Timeout };
    lemma_stake_grows(table, voters(before, slot), voters(after, slot));
}

proof fn lemma_decided_grows(
    table: Seq<ValidatorModel>,
    before: Map<Hash256, SafetyState>,
    after: Map<Hash256, SafetyState>,
    height: u64,
    block_id: Hash256,
)
    requires
        extends(before, after),
        decided(table, before, height, block_id),
    ensures
        decided(table, after, height, block_id),
{
    let view = choose|view: u64| #[trigger] decided_in(table, before, height, view, block_id);
    let order = VoteSlot { height, view, phase: VotePhase::Order };
    let commit = VoteSlot { height, view, phase: VotePhase::Commit };
    lemma_stake_grows(table, backers(before, order, block_id), backers(after, order, block_id));
    lemma_stake_grows(table, backers(before, commit, block_id), backers(after, commit, block_id));
    assert(decided_in(table, after, height, view, block_id));
}

proof fn lemma_contested_grows(
    table: Seq<ValidatorModel>,
    before: Map<Hash256, SafetyState>,
    after: Map<Hash256, SafetyState>,
    height: u64,
    view: u64,
    block_id: Hash256,
)
    requires
        extends(before, after),
        contested(table, before, height, view, block_id),
    ensures
        contested(table, after, height, view, block_id),
{
    let (later, other) = choose|later: u64, other: Hash256| #[trigger]
        ordered(table, before, height, later, other) && view < later && other != block_id;
    lemma_ordered_grows(table, before, after, height, later, other);
}

/// What stood behind a state stands behind it once replicas have voted more.
proof fn lemma_support_grows(
    table: Seq<ValidatorModel>,
    before: Map<Hash256, SafetyState>,
    after: Map<Hash256, SafetyState>,
    state: SafetyState,
)
    requires
        extends(before, after),
        supported(table, before, state),
        excused(table, before, state),
    ensures
        supported(table, after, state),
        excused(table, after, state),
{
    assert forall|view: u64| view < state.view implies #[trigger] abandoned(
        table,
        after,
        state.height,
        view,
    ) by {
        lemma_abandoned_grows(table, before, after, state.height, view);
    }
    assert forall|slot: VoteSlot, view: u64|
        (#[trigger] state.votes.contains_key(slot) && view < slot.view) implies #[trigger] abandoned(
        table,
        after,
        slot.height,
        view,
    ) by {
        assert(abandoned(table, before, slot.height, view));
        lemma_abandoned_grows(table, before, after, slot.height, view);
    }
    if let Some(lock) = state.lock {
        lemma_ordered_grows(table, before, after, lock.height, lock.view, lock.block_id);
    }
    assert forall|slot: VoteSlot|
        (#[trigger] state.votes.contains_key(slot) && slot.phase == VotePhase::Commit) implies ordered(
        table,
        after,
        slot.height,
        slot.view,
        state.votes[slot],
    ) by {
        lemma_ordered_grows(table, before, after, slot.height, slot.view, state.votes[slot]);
    }
    assert forall|height: u64| #[trigger] state.finalized.contains_key(height) implies decided(
        table,
        after,
        height,
        state.finalized[height],
    ) by {
        lemma_decided_grows(table, before, after, height, state.finalized[height]);
    }
    assert forall|height: u64, view: u64, block_id: Hash256, later: u64, other: Hash256| #[trigger]
        strayed(state, height, view, block_id, later, other) implies contested(
        table,
        after,
        height,
        view,
        block_id,
    ) by {
        lemma_contested_grows(table, before, after, height, view, block_id);
    }
}

/// A genuine certificate that verifies has its quorum among the backers.
proof fn lemma_certificate_has_backers<S: AggregateSignatureScheme>(
    table: Seq<ValidatorModel>,
    replicas: Map<Hash256, SafetyState>,
    certificate: CertificateModel,
    scheme: S,
)
    requires
        valid_table(table),
        certificate_check(certificate, table, scheme) is Ok,
        genuine(replicas, certificate),
    ensures
        stake_of(
            table,
            backers(replicas, certificate_slot(certificate), certificate.block_id),
        ) >= threshold_of(total_of(table), percent_of(certificate.kind)),
{
    let all = backers(replicas, certificate_slot(certificate), certificate.block_id);
    law_accepted_certificate_has_quorum(certificate, table, scheme);
    assert forall|id: Hash256| certificate.signers.to_set().contains(id) implies all.contains(
        id,
    ) by {
        let i = choose|i: int|
            0 <= i < certificate.signers.len() && certificate.signers[i] == id;
        assert(all.contains(certificate.signers[i]));
    }
    lemma_stake_grows(table, certificate.signers.to_set(), all);
}

/// A turn adds votes and takes none away.
proof fn lemma_turn_extends<S: AggregateSignatureScheme>(
    replicas: Map<Hash256, SafetyState>,
    turn: Turn<S>,
)
    ensures
        extends(replicas, after_turn(replicas, turn)),
{
    let id = turn.identity.id;
    if replicas.contains_key(id) {
        law_replica_never_double_votes(replicas[id], turn.identity, turn.event);
    }
}

/// A replica keeps its discipline.
proof fn lemma_discipline_is_kept<S: AggregateSignatureScheme>(
    state: SafetyState,
    identity: ReplicaIdentity<S>,
    event: ReplicaEvent,
)
    requires
        disciplined(state),
    ensures
        disciplined(replica_step(state, identity, event).0),
{
    law_first_round_votes_stay_exclusive(state, identity, event);
}

/// Two blocks that 60% notarized in one view are one.
proof fn lemma_one_block_per_view(
    table: Seq<ValidatorModel>,
    replicas: Map<Hash256, SafetyState>,
    height: u64,
    view: u64,
    left: Hash256,
    right: Hash256,
)
    requires
        fault_model(table, replicas),
        ordered(table, replicas, height, view, left),
        ordered(table, replicas, height, view, right),
    ensures
        left == right,
{
    let slot = VoteSlot { height, view, phase: VotePhase::Order };
    let a = backers(replicas, slot, left);
    let b = backers(replicas, slot, right);
    law_fallback_quorums_share_an_honest_validator(table, a, b, faulty(replicas));
    let i = choose|i: int|
        0 <= i < table.len() && a.contains((#[trigger] table[i]).id) && b.contains(table[i].id)
            && !faulty(replicas).contains(table[i].id);
    assert(replicas.contains_key(table[i].id));
}

/// A commit quorum has a replica in it, which has seen the block notarized.
proof fn lemma_committed_is_ordered(
    table: Seq<ValidatorModel>,
    replicas: Map<Hash256, SafetyState>,
    height: u64,
    view: u64,
    block_id: Hash256,
)
    requires
        fault_model(table, replicas),
        sound(table, replicas),
        committed(table, replicas, height, view, block_id),
    ensures
        ordered(table, replicas, height, view, block_id),
        forall|earlier: u64| earlier < view ==> #[trigger] abandoned(
            table,
            replicas,
            height,
            earlier,
        ),
{
    let slot = VoteSlot { height, view, phase: VotePhase::Commit };
    let i = lemma_heavier_set_has_another(
        table,
        backers(replicas, slot, block_id),
        faulty(replicas),
    );
    let state = replicas[table[i].id];
    assert(replicas.contains_key(table[i].id));
    assert(state.votes.contains_key(slot));
}

/// A fast quorum has a replica in it, which has seen all earlier views given up.
proof fn lemma_fast_is_ordered(
    table: Seq<ValidatorModel>,
    replicas: Map<Hash256, SafetyState>,
    height: u64,
    view: u64,
    block_id: Hash256,
)
    requires
        fault_model(table, replicas),
        sound(table, replicas),
        fast(table, replicas, height, view, block_id),
    ensures
        ordered(table, replicas, height, view, block_id),
        forall|earlier: u64| earlier < view ==> #[trigger] abandoned(
            table,
            replicas,
            height,
            earlier,
        ),
{
    let slot = VoteSlot { height, view, phase: VotePhase::Order };
    let i = lemma_heavier_set_has_another(
        table,
        backers(replicas, slot, block_id),
        faulty(replicas),
    );
    assert(replicas.contains_key(table[i].id));
    assert(replicas[table[i].id].votes.contains_key(slot));
}

/// A block decided in a view is the block of every later decision.
proof fn lemma_later_decision_agrees(
    table: Seq<ValidatorModel>,
    replicas: Map<Hash256, SafetyState>,
    height: u64,
    view: u64,
    block_id: Hash256,
    later: u64,
    other: Hash256,
)
    requires
        fault_model(table, replicas),
        sound(table, replicas),
        decided_in(table, replicas, height, view, block_id),
        decided_in(table, replicas, height, later, other),
        view <= later,
    ensures
        block_id == other,
{
    if fast(table, replicas, height, later, other) {
        lemma_fast_is_ordered(table, replicas, height, later, other);
    } else {
        lemma_committed_is_ordered(table, replicas, height, later, other);
    }
    if view == later {
        if fast(table, replicas, height, view, block_id) {
            lemma_fast_is_ordered(table, replicas, height, view, block_id);
        } else {
            lemma_committed_is_ordered(table, replicas, height, view, block_id);
        }
        lemma_one_block_per_view(table, replicas, height, view, block_id, other);
    } else if fast(table, replicas, height, view, block_id) {
        assert(abandoned(table, replicas, height, view));
        let order = VoteSlot { height, view, phase: VotePhase::Order };
        let timeout = VoteSlot { height, view, phase: VotePhase::Timeout };
        let a = backers(replicas, order, block_id);
        let b = voters(replicas, timeout);
        law_fast_and_timeout_quorums_share_an_honest_validator(table, a, b, faulty(replicas));
        let i = choose|i: int|
            0 <= i < table.len() && a.contains((#[trigger] table[i]).id) && b.contains(table[i].id)
                && !faulty(replicas).contains(table[i].id);
        let state = replicas[table[i].id];
        assert(replicas.contains_key(table[i].id));
        assert(first_round_exclusive(state.votes));
        assert(state.votes.contains_key(order) && state.votes.contains_key(timeout));
    } else if block_id != other {
        assert(contested(table, replicas, height, view, block_id));
        let slot = VoteSlot { height, view, phase: VotePhase::Commit };
        lemma_stake_grows(
            table,
            backers(replicas, slot, block_id),
            committers(replicas, height, view, block_id),
        );
    }
}

/// At most one block is decided at a height.
proof fn lemma_one_decision(
    table: Seq<ValidatorModel>,
    replicas: Map<Hash256, SafetyState>,
    height: u64,
    left: Hash256,
    right: Hash256,
)
    requires
        fault_model(table, replicas),
        sound(table, replicas),
        decided(table, replicas, height, left),
        decided(table, replicas, height, right),
    ensures
        left == right,
{
    let a = choose|view: u64| #[trigger] decided_in(table, replicas, height, view, left);
    let b = choose|view: u64| #[trigger] decided_in(table, replicas, height, view, right);
    if a <= b {
        lemma_later_decision_agrees(table, replicas, height, a, left, b, right);
    } else {
        lemma_later_decision_agrees(table, replicas, height, b, right, a, left);
    }
}

/// What stands behind the state that a turn leaves.
proof fn lemma_next_is_supported<S: AggregateSignatureScheme>(
    table: Seq<ValidatorModel>,
    replicas: Map<Hash256, SafetyState>,
    turn: Turn<S>,
)
    requires
        valid_table(table),
        sound(table, replicas),
        turn.identity.table == table,
        replicas.contains_key(turn.identity.id),
        authentic_turn(replicas, turn),
    ensures
        supported(
            table,
            replicas,
            replica_step(replicas[turn.identity.id], turn.identity, turn.event).0,
        ),
{
    let state = replicas[turn.identity.id];
    let next = replica_step(state, turn.identity, turn.event).0;
    assert(supported(table, replicas, state));
    match turn.event {
        ReplicaEvent::Prepared(certificate) => {
            if certificate_check(certificate, table, turn.identity.scheme) is Ok {
                lemma_certificate_has_backers(
                    table,
                    replicas,
                    certificate,
                    turn.identity.scheme,
                );
            }
        },
        ReplicaEvent::TimedOut(certificate) => {
            if certificate_check(certificate, table, turn.identity.scheme) is Ok {
                lemma_certificate_has_backers(
                    table,
                    replicas,
                    certificate,
                    turn.identity.scheme,
                );
                let slot = certificate_slot(certificate);
                lemma_stake_grows(
                    table,
                    backers(replicas, slot, certificate.block_id),
                    voters(replicas, slot),
                );
            }
        },
        ReplicaEvent::Certified(certificate) => {
            if certificate_check(certificate, table, turn.identity.scheme) is Ok {
                lemma_certificate_has_backers(
                    table,
                    replicas,
                    certificate,
                    turn.identity.scheme,
                );
                if certificate.kind == CertificateKind::Fast || certificate.kind
                    == CertificateKind::Commit {
                    assert(decided_in(
                        table,
                        replicas,
                        certificate.height,
                        certificate.view,
                        certificate.block_id,
                    ));
                }
            }
        },
        _ => {},
    }
}

/// A replica that has strayed after a turn did so from a block that was
/// contested before it.
proof fn lemma_stray_was_contested<S: AggregateSignatureScheme>(
    table: Seq<ValidatorModel>,
    replicas: Map<Hash256, SafetyState>,
    turn: Turn<S>,
    height: u64,
    view: u64,
    block_id: Hash256,
    later: u64,
    other: Hash256,
)
    requires
        valid_table(table),
        sound(table, replicas),
        turn.identity.table == table,
        replicas.contains_key(turn.identity.id),
        authentic_turn(replicas, turn),
        strayed(
            replica_step(replicas[turn.identity.id], turn.identity, turn.event).0,
            height,
            view,
            block_id,
            later,
            other,
        ),
    ensures
        contested(table, replicas, height, view, block_id),
{
    let state = replicas[turn.identity.id];
    let next = replica_step(state, turn.identity, turn.event).0;
    let commit = VoteSlot { height, view, phase: VotePhase::Commit };
    let order = VoteSlot { height, view: later, phase: VotePhase::Order };
    assert(disciplined(state) && supported(table, replicas, state));
    law_replica_never_double_votes(state, turn.identity, turn.event);
    if strayed(state, height, view, block_id, later, other) {
        assert(contested(table, replicas, height, view, block_id));
    } else {
        match turn.event {
            ReplicaEvent::Proposed(proposal) => {
                assert(state.votes.contains_key(commit));
                assert(state.height == height && state.view == later);
                let lock = state.lock.unwrap();
                assert(ordered(table, replicas, height, lock.view, lock.block_id));
                if proposal.block_id != lock.block_id {
                    let justify = proposal.justify.unwrap();
                    assert(unlocks(justify, lock, other));
                    lemma_certificate_has_backers(
                        table,
                        replicas,
                        justify,
                        turn.identity.scheme,
                    );
                    assert(ordered(table, replicas, height, justify.view, other));
                }
            },
            ReplicaEvent::Prepared(certificate) => {
                assert(state.votes.contains_key(order));
            },
            _ => {},
        }
    }
}

/// Nobody who could not commit a block before a turn can after it.
proof fn lemma_committers_shrink<S: AggregateSignatureScheme>(
    table: Seq<ValidatorModel>,
    replicas: Map<Hash256, SafetyState>,
    turn: Turn<S>,
    height: u64,
    view: u64,
    block_id: Hash256,
)
    ensures
        stake_of(table, committers(after_turn(replicas, turn), height, view, block_id))
            <= stake_of(table, committers(replicas, height, view, block_id)),
{
    let after = after_turn(replicas, turn);
    let later = committers(after, height, view, block_id);
    let earlier = committers(replicas, height, view, block_id);
    assert forall|id: Hash256| later.contains(id) implies earlier.contains(id) by {
        if replicas.contains_key(id) && id == turn.identity.id {
            law_replica_never_double_votes(replicas[id], turn.identity, turn.event);
            let slot = VoteSlot { height, view, phase: VotePhase::Commit };
            if has_vote(after[id], slot, block_id) && !replicas[id].votes.contains_key(slot) {
                assert(replicas[id].height == height && replicas[id].view == view);
            }
        }
    }
    lemma_stake_grows(table, later, earlier);
}

/// A contested block cannot gather a commit quorum after a turn either.
proof fn lemma_turn_keeps_settled<S: AggregateSignatureScheme>(
    table: Seq<ValidatorModel>,
    replicas: Map<Hash256, SafetyState>,
    turn: Turn<S>,
)
    requires
        fault_model(table, replicas),
        sound(table, replicas),
        turn.identity.table == table,
        replicas.contains_key(turn.identity.id),
        authentic_turn(replicas, turn),
    ensures
        settled(table, after_turn(replicas, turn)),
{
    let after = after_turn(replicas, turn);
    let acting = turn.identity.id;
    lemma_turn_extends(replicas, turn);
    assert(faulty(after) =~= faulty(replicas));
    assert forall|height: u64, view: u64, block_id: Hash256| #[trigger]
        contested(table, after, height, view, block_id) implies stake_of(
        table,
        committers(after, height, view, block_id),
    ) < threshold_of(total_of(table), 60) by {
        let open = committers(after, height, view, block_id);
        if stake_of(table, open) >= threshold_of(total_of(table), 60) {
            lemma_committers_shrink(table, replicas, turn, height, view, block_id);
            assert(!contested(table, replicas, height, view, block_id));
            let (later, other) = choose|later: u64, other: Hash256| #[trigger]
                ordered(table, after, height, later, other) && view < later && other != block_id;
            let order = VoteSlot { height, view: later, phase: VotePhase::Order };
            let quorum = backers(after, order, other);
            law_fallback_quorums_share_an_honest_validator(table, quorum, open, faulty(after));
            let i = choose|i: int|
                0 <= i < table.len() && quorum.contains((#[trigger] table[i]).id)
                    && open.contains(table[i].id) && !faulty(after).contains(table[i].id);
            let id = table[i].id;
            assert(after.contains_key(id) && replicas.contains_key(id));
            lemma_discipline_is_kept(replicas[acting], turn.identity, turn.event);
            assert(disciplined(after[id]));
            assert(after[id].votes.contains_key(order));
            assert(strayed(after[id], height, view, block_id, later, other));
            if id == acting {
                lemma_stray_was_contested(
                    table,
                    replicas,
                    turn,
                    height,
                    view,
                    block_id,
                    later,
                    other,
                );
            } else {
                assert(excused(table, replicas, replicas[id]));
            }
        }
    }
}

/// Every turn keeps what agreement rests on.
proof fn lemma_turn_is_sound<S: AggregateSignatureScheme>(
    table: Seq<ValidatorModel>,
    replicas: Map<Hash256, SafetyState>,
    turn: Turn<S>,
)
    requires
        fault_model(table, replicas),
        sound(table, replicas),
        turn.identity.table == table,
        authentic_turn(replicas, turn),
    ensures
        fault_model(table, after_turn(replicas, turn)),
        sound(table, after_turn(replicas, turn)),
{
    let after = after_turn(replicas, turn);
    let acting = turn.identity.id;
    lemma_turn_extends(replicas, turn);
    assert(faulty(after) =~= faulty(replicas));
    if replicas.contains_key(acting) {
        lemma_turn_keeps_settled(table, replicas, turn);
        assert forall|id: Hash256| #[trigger] after.contains_key(id) implies disciplined(after[id])
            && supported(table, after, after[id]) && excused(table, after, after[id]) by {
            assert(replicas.contains_key(id));
            if id == acting {
                lemma_discipline_is_kept(replicas[id], turn.identity, turn.event);
                lemma_next_is_supported(table, replicas, turn);
                assert(excused(table, replicas, after[id])) by {
                    assert forall|
                        height: u64,
                        view: u64,
                        block_id: Hash256,
                        later: u64,
                        other: Hash256,
                    | #[trigger]
                        strayed(after[id], height, view, block_id, later, other) implies contested(
                        table,
                        replicas,
                        height,
                        view,
                        block_id,
                    ) by {
                        lemma_stray_was_contested(
                            table,
                            replicas,
                            turn,
                            height,
                            view,
                            block_id,
                            later,
                            other,
                        );
                    }
                }
            }
            lemma_support_grows(table, replicas, after, after[id]);
        }
    }
}

/// Replicas that have not voted yet leave nothing to object to.
proof fn lemma_fresh_is_sound(table: Seq<ValidatorModel>, replicas: Map<Hash256, SafetyState>)
    requires
        fault_model(table, replicas),
        forall|id: Hash256| #[trigger] replicas.contains_key(id) ==> fresh(replicas[id]),
    ensures
        sound(table, replicas),
{
    assert forall|height: u64, view: u64, block_id: Hash256| !(#[trigger] contested(
        table,
        replicas,
        height,
        view,
        block_id,
    )) by {
        if contested(table, replicas, height, view, block_id) {
            let (later, other) = choose|later: u64, other: Hash256| #[trigger]
                ordered(table, replicas, height, later, other) && view < later && other
                    != block_id;
            let slot = VoteSlot { height, view: later, phase: VotePhase::Order };
            let i = lemma_heavier_set_has_another(
                table,
                backers(replicas, slot, other),
                faulty(replicas),
            );
            assert(replicas.contains_key(table[i].id));
        }
    }
}

proof fn lemma_run_is_sound<S: AggregateSignatureScheme>(
    table: Seq<ValidatorModel>,
    replicas: Map<Hash256, SafetyState>,
    turns: Seq<Turn<S>>,
)
    requires
        fault_model(table, replicas),
        forall|id: Hash256| #[trigger] replicas.contains_key(id) ==> fresh(replicas[id]),
        authentic_turns(table, replicas, turns),
    ensures
        fault_model(table, after_turns(replicas, turns)),
        sound(table, after_turns(replicas, turns)),
    decreases turns.len(),
{
    if turns.len() == 0 {
        lemma_fresh_is_sound(table, replicas);
    } else {
        lemma_run_is_sound(table, replicas, turns.drop_last());
        lemma_turn_is_sound(table, after_turns(replicas, turns.drop_last()), turns.last());
    }
}

/// Safety: in whatever order proposals, certificates and timeouts reach them, no
/// two replicas finalize different blocks at one height, where less than one
/// fifth of the stake does not follow the protocol and certificates carry only
/// votes that were cast.
pub proof fn law_replicas_agree<S: AggregateSignatureScheme>(
    table: Seq<ValidatorModel>,
    replicas: Map<Hash256, SafetyState>,
    turns: Seq<Turn<S>>,
    left: Hash256,
    right: Hash256,
    height: u64,
)
    requires
        fault_model(table, replicas),
        forall|id: Hash256| #[trigger] replicas.contains_key(id) ==> fresh(replicas[id]),
        authentic_turns(table, replicas, turns),
        replicas.contains_key(left),
        replicas.contains_key(right),
        after_turns(replicas, turns)[left].finalized.contains_key(height),
        after_turns(replicas, turns)[right].finalized.contains_key(height),
    ensures
        after_turns(replicas, turns)[left].finalized[height] == after_turns(
            replicas,
            turns,
        )[right].finalized[height],
{
    let reached = after_turns(replicas, turns);
    lemma_run_is_sound(table, replicas, turns);
    lemma_same_replicas(replicas, turns);
    assert(reached.contains_key(left) && reached.contains_key(right));
    assert(supported(table, reached, reached[left]));
    assert(supported(table, reached, reached[right]));
    lemma_one_decision(
        table,
        reached,
        height,
        reached[left].finalized[height],
        reached[right].finalized[height],
    );
}

/// Safety, of certificates: no two final certificates for different blocks at
/// one height ever verify, under the same conditions.
pub proof fn law_final_certificates_agree<S: AggregateSignatureScheme>(
    table: Seq<ValidatorModel>,
    scheme: S,
    replicas: Map<Hash256, SafetyState>,
    turns: Seq<Turn<S>>,
    left: CertificateModel,
    right: CertificateModel,
)
    requires
        fault_model(table, replicas),
        forall|id: Hash256| #[trigger] replicas.contains_key(id) ==> fresh(replicas[id]),
        authentic_turns(table, replicas, turns),
        certificate_check(left, table, scheme) is Ok,
        certificate_check(right, table, scheme) is Ok,
        genuine(after_turns(replicas, turns), left),
        genuine(after_turns(replicas, turns), right),
        left.kind == CertificateKind::Fast || left.kind == CertificateKind::Commit,
        right.kind == CertificateKind::Fast || right.kind == CertificateKind::Commit,
        left.height == right.height,
    ensures
        left.block_id == right.block_id,
{
    let reached = after_turns(replicas, turns);
    lemma_run_is_sound(table, replicas, turns);
    lemma_certificate_has_backers(table, reached, left, scheme);
    lemma_certificate_has_backers(table, reached, right, scheme);
    assert(decided_in(table, reached, left.height, left.view, left.block_id));
    assert(decided_in(table, reached, right.height, right.view, right.block_id));
    lemma_one_decision(table, reached, left.height, left.block_id, right.block_id);
}

proof fn lemma_same_replicas<S: AggregateSignatureScheme>(
    replicas: Map<Hash256, SafetyState>,
    turns: Seq<Turn<S>>,
)
    ensures
        forall|id: Hash256|
            replicas.contains_key(id) <==> #[trigger] after_turns(replicas, turns).contains_key(id),
    decreases turns.len(),
{
    if turns.len() > 0 {
        lemma_same_replicas(replicas, turns.drop_last());
        let before = after_turns(replicas, turns.drop_last());
        assert forall|id: Hash256|
            replicas.contains_key(id) <==> #[trigger] after_turns(replicas, turns).contains_key(
                id,
            ) by {
            assert(replicas.contains_key(id) <==> before.contains_key(id));
        }
    }
}

} // verus!
