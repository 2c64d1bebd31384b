//! What a running node relies on: settings it may start with, peers it blames, payloads
//! it holds for others, and records it finds again.

use std::sync::Arc;

use vstd::prelude::*;

use crate::bytes::{bytes_before, lemma_be64_injective, text_bytes};
use crate::consensus::replica::{ReplicaIdentity, ReplicaSnapshot, SafetyState};
use crate::consensus::validators::{member, ValidatorSet};
use crate::crypto::{AggregateSignatureScheme, BLS12381_SCHEME_ID, ED25519_SCHEME_ID};
use crate::network::kestrel_cast::{chosen_from, shred_models, KestrelCastConfig, Shred, ShredModel};
use crate::network::service::{GossipError, NetworkHandle, OutboundShred, PeerBytes};
use crate::node::arguments::{
    check_rpc_bind, follows_flag, identity_of, named_command, parse_stake, read_as,
    runs_as_validator, ArgumentError, CliCommand,
};
use crate::node::coordinator::{
    answered, leads, valid_configuration, ContextModel, CoordinatorConfig, CoordinatorError,
    CoordinatorFaults, FaultModel, Flow, ProposalTransactionSource, SourceReply,
};
use crate::node::driver::{flow_result, start_refusal, ConsensusCoordinator};
use crate::node::genesis::{GenesisDocument, GenesisValidator};
use crate::node::lifecycle::{
    activated_schemes, all_supported, commit_refused, pending_block_key, record_key,
    supported_schemes, ApplicationModel, BlockLifecycle, CompletedBlock, DurableCheckpoint,
    LifecycleError, LifecycleModel, PayloadDecoding, PendingBlock, SchemesModel,
};
use crate::node::payload::{encodable, ids_of, BlockModel, PropagatedBlock};
use crate::node::pipeline::{
    admission_record, ban_of, ban_record, bans_of, blames_peer, corrupt_positions, offenses_of,
    valid_settings, PayloadSlot, PipelineError, Stage2PipelineConfig,
};
use crate::node::propagation::{can_start, cannot_start, topology_matches};
use crate::node::proposal_source::{
    all_valid, first_slot, fresh_pipeline, group_result, payload_held, payload_refused, shreds_in,
    submission_noted, PipelineModel,
};
use crate::node::round::{since, CoordinatorOutcome, RoundModel};
use crate::node::stage2::{idle_driver, is_peer_of, lists_peers, offended, DriverModel};
use crate::node::wire::{
    frame_length, genesis_delay, next_catchup_height, pruned_height, stated_length,
};
use crate::ordered::{lemma_sorted_keys_of_finite, sorted_keys, OrderedMap};
use crate::types::{Address, Hash256};

verus! {

/// A validator starts exactly where its settings leave room for the fast path within a
/// round, its fault rates are rates, and its private key is the one behind the public key
/// that genesis lists for it.
pub proof fn law_only_the_listed_validator_starts<S: AggregateSignatureScheme>(
    config: CoordinatorConfig,
    faults: FaultModel,
    identity: ReplicaIdentity<S>,
)
    ensures
        start_refusal(config, faults, identity) is None <==> {
            &&& 0 < config.proposal_vote_delay_ms
            &&& config.proposal_vote_delay_ms < config.fast_path_wait_ms
            &&& config.fast_path_wait_ms < config.round_timeout_ms
            &&& config.proposal_rebroadcast_ms > 0
            &&& config.maximum_message_bytes > 0
            &&& faults.drop_basis_points <= 10_000
            &&& member(identity.table, identity.id) is Some
            &&& identity.scheme.derived_key(identity.private_key) is Ok
            &&& identity.scheme.derived_key(identity.private_key).unwrap() == member(
                identity.table,
                identity.id,
            ).unwrap().public_key
        },
        valid_configuration(config, faults) && member(identity.table, identity.id) is None
            ==> start_refusal(config, faults, identity) == Some(
            CoordinatorError::UnknownLocalValidator,
        ),
{
}

/// The source is asked by the leader alone, once its delay is over and while nothing is
/// proposed, and for the block of the current height on the current parent; its answer is
/// what is proposed.
pub proof fn law_source_is_asked_for_the_next_block<S, P: ProposalTransactionSource>(
    context: ContextModel<S>,
    safety: SafetyState,
    round: RoundModel,
    now: u64,
    source: &P,
    reply: SourceReply,
)
    requires
        answered(context, safety, round, now, source, reply),
    ensures
        reply.order is Some ==> {
            &&& leads(context, safety)
            &&& round.proposal is None
            &&& since(now, round.started) >= context.faults.proposal_delay_ms
            &&& !context.faults.equivocate_when_leader
            &&& call_ensures(
                P::transaction_ids,
                (source, safety.height, safety.parent_id),
                reply.order,
            )
        },
        leads(context, safety) && round.proposal is None && since(now, round.started)
            >= context.faults.proposal_delay_ms && !context.faults.equivocate_when_leader
            ==> call_ensures(P::is_empty, (source,), reply.is_empty) && (reply.is_empty
            || call_ensures(
            P::transaction_ids,
            (source, safety.height, safety.parent_id),
            reply.order,
        )),
{
}

/// The stages of the pipeline run only with room for something.
pub proof fn law_settings_leave_room(config: Stage2PipelineConfig)
    ensures
        valid_settings(config) <==> {
            &&& config.maximum_block_transactions >= 1
            &&& config.relay_count >= 1
            &&& config.replication_factor >= 1
            &&& config.maximum_inflight_shred_blocks >= 1
            &&& config.maximum_pending_orders >= 1
            &&& config.payload_repair_delay_ms >= 1
            &&& config.commit_poll_interval_ms >= 1
        },
{
}

/// Every validator has a peer and no one else has, and the node itself is among them.
pub proof fn law_topology_is_the_genesis(
    validators: Seq<GenesisValidator>,
    peers: Map<Hash256, PeerBytes>,
    local: Seq<u8>,
    id: Hash256,
)
    requires
        topology_matches(validators, peers, local),
    ensures
        peers.contains_key(id) <==> exists|i: int|
            0 <= i < validators.len() && (#[trigger] validators[i]).validator.id == id,
        exists|own: Hash256| #[trigger] peers.contains_key(own) && peers[own]@ == local,
{
    let ids = crate::node::propagation::validator_ids(validators);
    assert(peers.contains_key(id) <==> ids.to_set().contains(id));
    if ids.contains(id) {
        let i = choose|i: int| 0 <= i < ids.len() && ids[i] == id;
        assert(validators[i].validator.id == id);
    }
    if exists|i: int| 0 <= i < validators.len() && (#[trigger] validators[i]).validator.id == id {
        let i = choose|i: int|
            0 <= i < validators.len() && (#[trigger] validators[i]).validator.id == id;
        assert(ids[i] == id);
    }
}

/// A pipeline starts with nothing waiting, nothing held and the configured prices and
/// limits, at the nonces and the height that were committed.
pub proof fn law_pipeline_starts_empty(
    config: Stage2PipelineConfig,
    nonces: Map<Address, u64>,
    height: u64,
)
    ensures
        ({
            let state = fresh_pipeline(config, nonces, height);
            &&& state.market.queues.dom().len() == 0
            &&& state.market.ids.len() == 0
            &&& state.market.policies.dom().len() == 0
            &&& state.market.base_fee == config.base_fee_per_compute
            &&& state.market.increment == config.congestion_increment
            &&& state.market.limit == config.per_scope_block_limit
            &&& state.transactions.dom().len() == 0
            &&& state.reserved_senders.dom().len() == 0
            &&& state.payloads.dom().len() == 0
            &&& state.shreds.dom().len() == 0
            &&& state.recent_payloads.dom().len() == 0
            &&& state.propagated.len() == 0
            &&& state.next_nonces == nonces
            &&& state.retired_height == height
            &&& state.capacity == config.maximum_inflight_shred_blocks
            &&& state.arrival_sequence == 0
        }),
{
}

/// A payload from the network is refused exactly where one of its transactions is not
/// valid or it cannot be encoded.
pub proof fn law_payload_is_refused_for_cause_only(
    schemes: SchemesModel,
    payload: BlockModel,
    decodings: Seq<PayloadDecoding>,
    error: PipelineError,
)
    requires
        payload_refused(schemes, payload, decodings, error),
    ensures
        crate::node::payload::encodable_block(payload) ==> exists|i: int|
            0 <= i < payload.transactions.len() && (crate::node::lifecycle::validation_refusal(
                schemes,
                #[trigger] payload.transactions[i],
                decodings[i],
            ) is Some),
        error is Lifecycle,
        all_valid(schemes, payload, decodings) <==> forall|i: int|
            0 <= i < payload.transactions.len() ==> crate::node::lifecycle::validation_refusal(
                schemes,
                #[trigger] payload.transactions[i],
                decodings[i],
            ) is None && encodable(payload.transactions[i]),
{
    if crate::node::payload::encodable_block(payload) {
        let i = choose|i: int|
            #[trigger] crate::node::proposal_source::first_invalid(
                schemes,
                payload,
                decodings,
                error,
                i,
            );
        assert(encodable(payload.transactions[i]));
    }
}

/// A group of shreds gives a payload only once it has as many as the code needs; what it
/// gives comes of all shreds of the group, in the order of their places.
pub proof fn law_group_waits_for_enough_shreds(
    group: Map<u16, ShredModel>,
    data_shards: u16,
    result: Result<Option<PropagatedBlock>, PipelineError>,
    index: u16,
)
    requires
        group_result(group, data_shards, result),
        group.dom().finite(),
    ensures
        result matches Ok(None) <==> group.dom().len() < data_shards,
        group.contains_key(index) ==> shreds_in(group).contains(group[index]),
        shreds_in(group).len() == group.dom().len(),
{
    lemma_sorted_keys_of_finite(group.dom());
    let keys = sorted_keys(group.dom());
    if group.contains_key(index) {
        assert(keys.contains(index));
        let k = choose|k: int| 0 <= k < keys.len() && keys[k] == index;
        assert(shreds_in(group)[k] == group[index]);
    }
    assert(keys.no_duplicates()) by {
        assert forall|i: int, j: int| 0 <= i < keys.len() && 0 <= j < keys.len() && i != j implies
            keys[i] != keys[j] by {
            if i < j {
                assert(crate::ordered::SortKey::precedes(keys[i], keys[j]));
            } else {
                assert(crate::ordered::SortKey::precedes(keys[j], keys[i]));
            }
        }
    }
    keys.unique_seq_to_set();
}

/// What is held for a height is a payload of a candidate of that height or the one kept
/// for repair, and something is held where there is either.
pub proof fn law_held_payload_is_of_its_height(state: PipelineModel, height: u64, slot: PayloadSlot)
    requires
        state.payloads.dom().finite(),
    ensures
        payload_held(state, height) matches Some(payload) ==> (exists|held: PayloadSlot| #[trigger]
            state.payloads.contains_key(held) && held.height == height && state.payloads[held]
                == payload) || (state.recent_payloads.contains_key(height)
            && state.recent_payloads[height] == payload),
        state.recent_payloads.contains_key(height) ==> payload_held(state, height) is Some,
        state.payloads.contains_key(slot) && slot.height == height ==> payload_held(state, height)
            is Some,
{
    let slots = sorted_keys(state.payloads.dom());
    lemma_sorted_keys_of_finite(state.payloads.dom());
    let wanted = crate::node::proposal_source::at_height(height);
    crate::node::admission_guarantees::lemma_first_slot(slots, wanted, slot);
    if let Some(found) = first_slot(slots, wanted) {
        assert(slots.contains(found));
        assert(state.payloads.contains_key(found));
    }
    if state.payloads.contains_key(slot) {
        assert(slots.contains(slot));
    }
}

/// A submitted payload names exactly its own transactions for deletion.
pub proof fn law_submission_names_its_transactions(
    before: PipelineModel,
    after: PipelineModel,
    payload: BlockModel,
    ids: Vec<Hash256>,
    id: Hash256,
)
    requires
        submission_noted(before, after, payload, Ok(ids)),
    ensures
        ids@.contains(id) <==> exists|i: int|
            0 <= i < payload.transactions.len() && crate::node::payload::transaction_id(
                #[trigger] payload.transactions[i],
            ) == id,
{
    let all = ids_of(payload.transactions);
    vstd::seq_lib::seq_to_set_is_finite(all);
    lemma_sorted_keys_of_finite(all.to_set());
    if ids@.contains(id) {
        assert(all.contains(id));
        let i = choose|i: int| 0 <= i < all.len() && all[i] == id;
        assert(crate::node::payload::transaction_id(payload.transactions[i]) == id);
    }
    if exists|i: int|
        0 <= i < payload.transactions.len() && crate::node::payload::transaction_id(
            #[trigger] payload.transactions[i],
        ) == id {
        let i = choose|i: int|
            0 <= i < payload.transactions.len() && crate::node::payload::transaction_id(
                #[trigger] payload.transactions[i],
            ) == id;
        assert(all[i] == id);
        assert(all.to_set().contains(id));
    }
}

/// An offense counts for its peer, once, and for nobody else.
pub proof fn law_offense_counts_once(state: DriverModel, peer: Seq<u8>, other: Seq<u8>)
    requires
        offenses_of(state.offenses, peer) < u32::MAX,
    ensures
        offenses_of(offended(state, peer).offenses, peer) == offenses_of(state.offenses, peer) + 1,
        other != peer ==> offenses_of(offended(state, peer).offenses, other) == offenses_of(
            state.offenses,
            other,
        ),
        offended(state, peer).pending == state.pending,
        offended(state, peer).submitted_height == state.submitted_height,
{
}

/// A peer is not blamed for what is no fault of its own: a race for a nonce or a sender,
/// a full market or buffer, or a queue or disk of this node. It is blamed for a message
/// that no honest peer sends.
pub proof fn law_honest_peers_are_not_blamed(error: PipelineError)
    ensures
        error is NonceMismatch || error is SenderAlreadyReserved || error is Mempool || error
            is InflightShredLimitReached || error is LockPoisoned || error is Storage
            ==> !blames_peer(error),
        error == PipelineError::Gossip(GossipError::TransactionQueueUnavailable)
            || error == PipelineError::Gossip(GossipError::ShredQueueUnavailable)
            || error == PipelineError::Gossip(GossipError::BanQueueUnavailable) ==> !blames_peer(
            error,
        ),
        error is Lifecycle || error is KestrelCast ==> blames_peer(error),
{
}

/// Every stored ban is read back, nothing else is taken for one, and what cannot be read
/// is reported by its place.
pub proof fn law_stored_bans_are_all_read(keys: Seq<Seq<u8>>, peer: Seq<u8>, i: int)
    ensures
        bans_of(keys).contains(peer) <==> exists|k: int|
            0 <= k < keys.len() && ban_of(#[trigger] keys[k]) == Some(peer),
        corrupt_positions(keys).contains(i) <==> 0 <= i < keys.len() && ban_of(keys[i]) is None,
        bans_of(keys).len() + corrupt_positions(keys).len() == keys.len(),
        ban_of(keys[i]) matches Some(read) ==> keys[i] == ban_record(read),
    decreases keys.len(),
{
    if let Some(read) = ban_of(keys[i]) {
        let prefix = text_bytes("pipeline/ban/v1/");
        assert(keys[i] =~= prefix + keys[i].skip(prefix.len() as int));
    }
    if keys.len() > 0 {
        let shorter = keys.drop_last();
        let last = keys.len() - 1;
        law_stored_bans_are_all_read(shorter, peer, i);
        let bans = bans_of(shorter);
        let all = bans_of(keys);
        let bad = corrupt_positions(shorter);
        let worse = corrupt_positions(keys);
        if bans.contains(peer) {
            let a = choose|a: int| 0 <= a < bans.len() && bans[a] == peer;
            assert(all[a] == peer);
            let k = choose|k: int|
                0 <= k < shorter.len() && ban_of(#[trigger] shorter[k]) == Some(peer);
            assert(keys[k] == shorter[k]);
        }
        if bad.contains(i) {
            let a = choose|a: int| 0 <= a < bad.len() && bad[a] == i;
            assert(worse[a] == i);
        }
        if ban_of(keys.last()) is Some {
            assert(all[bans.len() as int] == ban_of(keys[last]).unwrap());
        } else {
            assert(worse[bad.len() as int] == last);
        }
        if all.contains(peer) {
            let a = choose|a: int| 0 <= a < all.len() && all[a] == peer;
            if a < bans.len() {
                assert(bans[a] == peer);
            } else {
                assert(ban_of(keys[last]) == Some(peer));
            }
        }
        if worse.contains(i) {
            let a = choose|a: int| 0 <= a < worse.len() && worse[a] == i;
            if a < bad.len() {
                assert(bad[a] == i);
            }
        }
        if exists|k: int| 0 <= k < keys.len() && ban_of(#[trigger] keys[k]) == Some(peer) {
            let k = choose|k: int| 0 <= k < keys.len() && ban_of(#[trigger] keys[k]) == Some(peer);
            if k < last {
                assert(shorter[k] == keys[k]);
            }
        }
    }
}

/// Records of two heights, or of two transactions, never share a key.
pub proof fn law_records_have_keys_of_their_own(
    left: u64,
    right: u64,
    first: Hash256,
    second: Hash256,
)
    ensures
        record_key(left) == record_key(right) ==> left == right,
        pending_block_key(left) == pending_block_key(right) ==> left == right,
        admission_record(first) == admission_record(second) ==> first@ == second@,
{
    let block = text_bytes("application/block/v1/");
    let pending = text_bytes("application/pending/v1/");
    let admission = text_bytes("pipeline/admission/pending/");
    let a = crate::bytes::be64(left);
    let b = crate::bytes::be64(right);
    if record_key(left) == record_key(right) {
        assert((block + a).skip(block.len() as int) =~= a);
        assert((block + b).skip(block.len() as int) =~= b);
        lemma_be64_injective(left, right);
    }
    if pending_block_key(left) == pending_block_key(right) {
        assert((pending + a).skip(pending.len() as int) =~= a);
        assert((pending + b).skip(pending.len() as int) =~= b);
        lemma_be64_injective(left, right);
    }
    if admission_record(first) == admission_record(second) {
        assert((admission + first@).skip(admission.len() as int) =~= first@);
        assert((admission + second@).skip(admission.len() as int) =~= second@);
    }
}

/// A scheme that genesis activates is one of the two that the node has.
pub proof fn law_schemes_are_those_of_genesis(schemes: Seq<u16>)
    ensures
        all_supported(schemes) <==> forall|i: int|
            0 <= i < schemes.len() ==> #[trigger] schemes[i] == 1 || schemes[i] == 2,
        forall|i: int|
            0 <= i < schemes.len() ==> activated_schemes(schemes).activated.contains(
                #[trigger] schemes[i],
            ),
        forall|id: u16| #[trigger]
            activated_schemes(schemes).activated.contains(id) ==> schemes.contains(id),
        activated_schemes(schemes).registered.contains_key(1),
        activated_schemes(schemes).registered.contains_key(2),
{
    assert forall|id: u16| #[trigger] supported_schemes().contains_key(id) <==> id == 1 || id
        == 2 by {
        assert(ED25519_SCHEME_ID == 1 && BLS12381_SCHEME_ID == 2);
    }
    if all_supported(schemes) {
        assert forall|i: int| 0 <= i < schemes.len() implies #[trigger] schemes[i] == 1
            || schemes[i] == 2 by {
            assert(schemes.contains(schemes[i]));
        }
    }
    if forall|i: int| 0 <= i < schemes.len() ==> #[trigger] schemes[i] == 1 || schemes[i] == 2 {
        assert forall|id: u16| #[trigger] schemes.contains(id) implies supported_schemes().contains_key(
            id,
        ) by {
            let i = choose|i: int| 0 <= i < schemes.len() && schemes[i] == id;
            assert(schemes[i] == id);
        }
    }
}

/// A completed block that does not commit is refused by name: it is not the next one or
/// not the one that was submitted, execution failed, no snapshot came, or the snapshot's
/// root is not the one that execution reported.
pub proof fn law_commit_is_refused_by_name<S: AggregateSignatureScheme>(
    application: ApplicationModel<S>,
    state: LifecycleModel,
    completed: CompletedBlock,
    error: LifecycleError,
)
    requires
        commit_refused(application, state, completed, error),
        state.committed_height < u64::MAX,
    ensures
        completed.height != state.committed_height + 1 || !state.pending.contains_key(
            completed.height,
        ) || completed.consensus_block_id != state.pending[completed.height].order.block_id
            <==> error == LifecycleError::CommitOrderMismatch,
        error == LifecycleError::MissingStateSnapshot ==> completed.snapshot_root is None,
        error == LifecycleError::CommitRootMismatch ==> (completed.snapshot_root matches Some(root)
            && (completed.result matches Ok(block) && block.state_root != root)),
        error is ExecutionFailed ==> completed.result is Err,
{
}

/// The first argument names the command, and anything else asks for help.
pub proof fn law_commands_go_by_name(arguments: Seq<String>)
    ensures
        named_command(arguments) == CliCommand::ValidatorInit <==> arguments.len() > 0
            && arguments[0]@ == "validator-init"@,
        named_command(arguments) == CliCommand::GenesisCreate <==> arguments.len() > 0
            && arguments[0]@ == "genesis-create"@,
        named_command(arguments) == CliCommand::GenesisValidate <==> arguments.len() > 0
            && arguments[0]@ == "genesis-validate"@,
{
    reveal_strlit("validator-init");
    reveal_strlit("genesis-create");
    reveal_strlit("genesis-validate");
    assert("validator-init"@.len() == 14);
    assert("genesis-create"@.len() == 14);
    assert("genesis-validate"@.len() == 16);
    assert("validator-init"@[0] != "genesis-create"@[0]);
}

/// The value of a flag is what stands behind its first mention.
pub proof fn law_value_stands_behind_its_flag(arguments: Seq<String>, flag: Seq<char>, i: int, j: int)
    requires
        follows_flag(arguments, flag, i),
        follows_flag(arguments, flag, j),
    ensures
        i == j,
        0 < i < arguments.len(),
        arguments[i - 1]@ == flag,
        forall|k: int| 0 <= k < i - 1 ==> (#[trigger] arguments[k])@ != flag,
{
    if i < j {
        assert(arguments[i - 1]@ != flag);
    }
    if j < i {
        assert(arguments[j - 1]@ != flag);
    }
}

/// A validator's identity is the digest of its public key in a domain of its own, and an
/// identifier that is read holds the bytes that were written.
pub proof fn law_identities_are_digests(public_key: Seq<u8>, text: Seq<u8>, hash: Hash256)
    ensures
        identity_of(public_key) == crate::types::hash_of(
            text_bytes("kestrel/validator/id/v1") + public_key,
        ),
        read_as(text, Ok(hash)) ==> crate::node::arguments::identifier_in(text) == Ok::<
            Seq<u8>,
            ArgumentError,
        >(hash@),
{
}

/// A validator runs with its whole identity, a plain node with none of it, and nothing
/// runs with a part; the interface for clients is public only where that was allowed;
/// stakes are positive.
pub proof fn law_startup_is_all_or_nothing(
    id: bool,
    validator_key: bool,
    gossip_key: bool,
    data_dir: bool,
    mode: Result<bool, ArgumentError>,
    loopback: bool,
    allow_public: bool,
    bound: Result<(), ArgumentError>,
    text: &str,
    stake: Result<u64, ArgumentError>,
)
    requires
        call_ensures(runs_as_validator, (id, validator_key, gossip_key, data_dir), mode),
        call_ensures(check_rpc_bind, (loopback, allow_public), bound),
        call_ensures(parse_stake, (text,), stake),
    ensures
        mode == Ok::<bool, ArgumentError>(true) <==> id && validator_key && gossip_key && data_dir,
        mode == Ok::<bool, ArgumentError>(false) <==> !id && !validator_key && !gossip_key
            && !data_dir,
        bound is Ok <==> loopback || allow_public,
        stake matches Ok(amount) ==> amount > 0,
{
}

/// What a node keeps for others is bounded: the order that leaves the store is as old as
/// the retention, a batch goes on from where it stands up to its limit, and a frame is
/// read only where it states a length within the budget. Before genesis a node waits for
/// the rest of the time.
pub proof fn law_limits_are_kept(
    height: u64,
    pruned: Option<u64>,
    from_height: u64,
    loaded: usize,
    next: Option<u64>,
    header: [u8; 4],
    budget: usize,
    length: Result<usize, CoordinatorError>,
    now_ms: u128,
    genesis_ms: u64,
    delay: Option<u64>,
)
    requires
        call_ensures(pruned_height, (height,), pruned),
        call_ensures(next_catchup_height, (from_height, loaded), next),
        call_ensures(frame_length, (header, budget), length),
        call_ensures(genesis_delay, (now_ms, genesis_ms), delay),
    ensures
        pruned matches Some(old) ==> old + 1_024 == height,
        height >= 1_024 ==> pruned is Some,
        next matches Some(at) ==> at == from_height + loaded && loaded < 64,
        loaded < 64 && from_height + loaded <= u64::MAX ==> next is Some,
        length matches Ok(bytes) ==> 0 < bytes <= budget && bytes == stated_length(header@),
        0 < stated_length(header@) <= budget ==> length is Ok,
        delay matches Some(wait) ==> now_ms + wait == genesis_ms && wait > 0,
        delay is None <==> now_ms >= genesis_ms,
{
}

/// A pipeline starts exactly where its settings leave room, its peers are those of
/// genesis, a scope may put something into a block, and the node has every scheme that
/// genesis activates; each way to fail has a name of its own.
pub proof fn law_pipeline_starts_for_cause(
    genesis: GenesisDocument,
    peers: Map<Hash256, PeerBytes>,
    local: Seq<u8>,
    config: Stage2PipelineConfig,
    error: PipelineError,
)
    ensures
        can_start(genesis, peers, local, config) <==> {
            &&& valid_settings(config)
            &&& topology_matches(genesis.validators@, peers, local)
            &&& config.per_scope_block_limit > 0
            &&& forall|i: int|
                0 <= i < genesis.active_signature_schemes@.len()
                    ==> #[trigger] genesis.active_signature_schemes@[i] == 1
                    || genesis.active_signature_schemes@[i] == 2
        },
        cannot_start(genesis, peers, local, config, error) ==> {
            &&& error == PipelineError::InvalidConfiguration <==> !valid_settings(config)
            &&& error == PipelineError::InvalidPeerTopology ==> !topology_matches(
                genesis.validators@,
                peers,
                local,
            )
        },
{
    law_schemes_are_those_of_genesis(genesis.active_signature_schemes@);
}

/// A driver that has not run yet waits for the height after the last one, has nothing
/// pending and nobody on record, and knows its peers in order.
pub proof fn law_driver_starts_idle(
    peers: Seq<Seq<u8>>,
    local: Seq<u8>,
    height: u64,
    config: Stage2PipelineConfig,
    validators: Map<Hash256, PeerBytes>,
    id: Hash256,
    i: int,
)
    requires
        lists_peers(peers, validators),
    ensures
        ({
            let state = idle_driver(peers, local, height, config);
            &&& state.peers == peers
            &&& state.local == local
            &&& state.submitted_height == height
            &&& state.pending.dom().len() == 0
            &&& state.offenses.dom().len() == 0
            &&& state.repair_after_ms is None
            &&& state.repair_backoff_ms == config.payload_repair_delay_ms
        }),
        validators.contains_key(id) ==> peers.contains(validators[id]@),
        0 <= i < peers.len() ==> exists|holder: Hash256| #[trigger]
            validators.contains_key(holder) && validators[holder]@ == peers[i],
        peers.no_duplicates(),
{
    if validators.contains_key(id) {
        assert(is_peer_of(validators, validators[id]@));
    }
    if 0 <= i < peers.len() {
        assert(peers.contains(peers[i]));
        assert(is_peer_of(validators, peers[i]));
    }
    assert forall|i: int, j: int| 0 <= i < peers.len() && 0 <= j < peers.len() && i != j implies
        peers[i] != peers[j] by {
        if i < j {
            assert(bytes_before(peers[i], peers[j]));
        } else {
            assert(bytes_before(peers[j], peers[i]));
        }
        if peers[i] == peers[j] {
            lemma_not_before_itself(peers[i]);
        }
    }
}

proof fn lemma_not_before_itself(bytes: Seq<u8>)
    ensures
        !bytes_before(bytes, bytes),
{
}

/// How a turn ends is what its caller sees: nothing yet, an outcome, or an error.
pub proof fn law_turns_end_as_reported(flow: Flow)
    ensures
        flow matches Flow::Continue ==> flow_result(flow) == Ok::<
            Option<CoordinatorOutcome>,
            CoordinatorError,
        >(None),
        flow matches Flow::Finish(outcome) ==> flow_result(flow) == Ok::<
            Option<CoordinatorOutcome>,
            CoordinatorError,
        >(outcome),
        flow matches Flow::Fail(error) ==> flow_result(flow) == Err::<
            Option<CoordinatorOutcome>,
            CoordinatorError,
        >(error),
{
}

/// A transaction for the network is refused as too large where it is, and otherwise only
/// where the queue did not take it.
pub proof fn law_large_transactions_are_refused(
    network: &NetworkHandle,
    bytes: Vec<u8>,
    result: Result<(), GossipError>,
)
    requires
        network.transaction_sent(bytes, result),
    ensures
        bytes@.len() > network.transaction_max_bytes <==> result == Err::<(), GossipError>(
            GossipError::TransactionTooLarge,
        ),
        result is Ok ==> network.transaction_offered(bytes, true),
        result == Err::<(), GossipError>(GossipError::TransactionQueueUnavailable)
            ==> network.transaction_offered(bytes, false),
{
}

/// A shred for a peer is refused as too large where its payload is, and otherwise only
/// where the queue did not take it.
pub proof fn law_large_shreds_are_refused(
    network: &NetworkHandle,
    outbound: OutboundShred,
    result: Result<(), GossipError>,
)
    requires
        network.shred_sent(outbound, result),
    ensures
        outbound.shred.payload@.len() > network.shred_max_bytes <==> result == Err::<
            (),
            GossipError,
        >(GossipError::ShredTooLarge),
        result is Ok ==> network.shred_offered(outbound, true),
        result == Err::<(), GossipError>(GossipError::ShredQueueUnavailable)
            ==> network.shred_offered(outbound, false),
{
}

/// A validator sends to its peers but those that are blocked or whose link loses the
/// message, hears everyone but those that are blocked, and is done once it has passed the
/// height that it is to stop after.
pub proof fn law_blocked_peers_are_cut_off<S: AggregateSignatureScheme>(
    coordinator: &ConsensusCoordinator<S>,
    peer: Hash256,
    encoded: Option<&Vec<u8>>,
    allowed: bool,
    ignored: bool,
    done: bool,
)
    requires
        call_ensures(ConsensusCoordinator::<S>::allows, (coordinator, peer, encoded), allowed),
        call_ensures(ConsensusCoordinator::<S>::ignores, (coordinator, peer), ignored),
        call_ensures(ConsensusCoordinator::<S>::is_done, (coordinator,), done),
    ensures
        ignored <==> coordinator.context().faults.blocked_peers.contains(peer),
        ignored ==> !allowed,
        !coordinator.context().peers.contains(peer) ==> !allowed,
        coordinator.context().faults.drop_basis_points == 0 && !ignored
            && coordinator.context().peers.contains(peer) ==> allowed,
        coordinator.context().faults.drop_basis_points >= 10_000 ==> !allowed,
        coordinator.context().config.stop_after_height is None ==> !done,
        coordinator.context().config.stop_after_height matches Some(height) ==> (done
            <==> coordinator.safety().height > height),
{
    let message = match encoded {
        Some(bytes) => Some(bytes@),
        None => None,
    };
    crate::node::setup_guarantees::law_links_lose_their_share(
        0,
        coordinator.context().faults.drop_basis_points,
        coordinator.context().identity.id,
        peer,
        message,
    );
}

/// A validator that starts reports the height before the one that it works on.
pub proof fn law_first_outcome_is_the_last_block<S: AggregateSignatureScheme>(
    coordinator: &ConsensusCoordinator<S>,
    outcome: CoordinatorOutcome,
)
    requires
        call_ensures(ConsensusCoordinator::<S>::initial_outcome, (coordinator,), outcome),
    ensures
        coordinator.safety().height > 0 ==> outcome.finalized_height + 1
            == coordinator.safety().height,
        outcome.finalized_block == coordinator.safety().parent_id,
        outcome.view_changes == 0,
{
}

/// Pending blocks are replayed in order and without a gap.
pub proof fn law_replay_leaves_no_gap<S: AggregateSignatureScheme>(
    lifecycle: &BlockLifecycle<S>,
    pending: &PendingBlock,
    result: Result<(), LifecycleError>,
)
    requires
        call_ensures(BlockLifecycle::<S>::check_replay, (lifecycle, pending), result),
        lifecycle@.submitted_height < u64::MAX,
    ensures
        result is Ok <==> pending@.order.height == lifecycle@.submitted_height + 1,
{
}

/// Losing shreds does no harm while enough are left: any of a block's shreds, as many as
/// it has data shards and no two for one place, give the block back.
pub proof fn law_block_survives_the_loss_of_shreds(
    block: &PropagatedBlock,
    config: KestrelCastConfig,
    shreds: Vec<Shred>,
    left: &[Shred],
    result: Result<PropagatedBlock, LifecycleError>,
)
    requires
        call_ensures(PropagatedBlock::shreds, (block, config), Ok(shreds)),
        call_ensures(PropagatedBlock::from_shreds, (left,), result),
        left@.len() >= config.data_shards,
        forall|i: int|
            0 <= i < left@.len() ==> shred_models(shreds@).contains((#[trigger] left@[i])@),
        forall|i: int, j: int| #![trigger left@[i], left@[j]]
            0 <= i < j < left@.len() ==> left@[i].index != left@[j].index,
    ensures
        result matches Ok(rebuilt) && rebuilt@ == block@,
{
    let chosen = shred_models(left@);
    assert forall|i: int| 0 <= i < chosen.len() implies shred_models(shreds@).contains(
        #[trigger] chosen[i],
    ) by {
        assert(chosen[i] == left@[i]@);
    }
    assert forall|i: int, j: int| #![trigger chosen[i], chosen[j]]
        0 <= i < j < chosen.len() implies chosen[i].index != chosen[j].index by {
        assert(chosen[i] == left@[i]@ && chosen[j] == left@[j]@);
    }
    assert(chosen_from(chosen, shred_models(shreds@), config.data_shards as nat));
}

/// A node that was never started before works on the first height, on top of genesis; one
/// that was goes on where its snapshot is.
pub proof fn law_validator_goes_on_where_it_was<S: AggregateSignatureScheme>(
    config: CoordinatorConfig,
    faults: CoordinatorFaults,
    id: Hash256,
    private_key: Vec<u8>,
    validators: ValidatorSet,
    scheme: Arc<S>,
    genesis_hash: Hash256,
    snapshot: Option<ReplicaSnapshot>,
    coordinator: ConsensusCoordinator<S>,
)
    requires
        call_ensures(
            ConsensusCoordinator::<S>::bind,
            (config, faults, id, private_key, validators, scheme, genesis_hash, snapshot),
            Ok(coordinator),
        ),
    ensures
        snapshot matches Some(stored) ==> coordinator.safety() == stored@,
        snapshot is None ==> coordinator.safety().height == 1 && coordinator.safety().view == 0
            && coordinator.safety().parent_id == genesis_hash
            && coordinator.safety().lock is None,
        coordinator.context().identity.id == id,
        coordinator.context().identity.private_key == private_key@,
        coordinator.context().identity.table == validators@,
        coordinator.context().config == config,
        coordinator.context().faults == faults@,
        forall|i: int|
            0 <= i < validators@.len() ==> coordinator.context().peers.contains(
                (#[trigger] validators@[i]).id,
            ),
{
    let ids = crate::node::driver::ids_of(validators@);
    assert forall|i: int| 0 <= i < validators@.len() implies coordinator.context().peers.contains(
        (#[trigger] validators@[i]).id,
    ) by {
        assert(ids[i] == validators@[i].id);
        assert(ids.to_set().contains(ids[i]));
    }
}

/// The first checkpoint is of genesis: nothing is finalized but it, no nonce is used, and
/// balances are those of the document.
pub proof fn law_first_checkpoint_is_of_genesis(
    genesis_hash: Hash256,
    balances: OrderedMap<Address, u128>,
    checkpoint: DurableCheckpoint,
)
    requires
        call_ensures(DurableCheckpoint::at_genesis, (genesis_hash, balances), checkpoint),
    ensures
        checkpoint.format_version == 2,
        checkpoint.genesis_hash == genesis_hash,
        checkpoint.finalized_height == 0,
        checkpoint.finalized_block == genesis_hash,
        checkpoint.next_nonces@.dom().len() == 0,
        checkpoint.fee_balances@ == balances@,
{
    assert(checkpoint@.next_nonces == checkpoint.next_nonces@);
}

} // verus!
