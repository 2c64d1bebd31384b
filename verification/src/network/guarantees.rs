//! What erasure-coded propagation and the gossip service are for.

use vstd::prelude::*;

use crate::bytes::{lemma_concat_injective, text_bytes};
use crate::network::kestrel_cast::{
    at_most, config_check, first_refusal, follows, held_by, holds, joined,
    law_each_shred_has_its_replicas, planned_as, reconstruction, relay_choice, shard_length,
    shred_models, shred_refusal, shreds_of, weighted_draws, KestrelCastError, RelayCandidate,
    RelayPlan, Shred, ShredModel,
};
use crate::network::service::{
    drop_bytes, drop_sample, is_dropped, other_peers, queueing_result, reaction, ConfiguredPeer,
    GossipError, NetworkAction, NetworkEvent, NetworkFaults, NetworkHandle, OutboundShred,
    PeerBytes, ShredRequest,
};
use crate::types::{hash_of, Hash256};

verus! {

/// Shards are as short as they can be: the shortest length, of at least one byte, at
/// which the data shards hold the block.
pub proof fn law_shards_are_as_short_as_possible(length: nat, data: nat)
    requires
        data > 0,
    ensures
        shard_length(length, data) >= 1,
        shard_length(length, data) * data >= length,
        shard_length(length, data) > 1 ==> (shard_length(length, data) - 1) * data < length,
{
    let top = (length + data - 1) as nat;
    let quotient = top / data;
    vstd::arithmetic::div_mod::lemma_fundamental_div_mod(top as int, data as int);
    let rest = top as int % data as int;
    assert(quotient * data >= length && (quotient >= 1 ==> (quotient - 1) * data < length))
        by (nonlinear_arith)
        requires
            top == length + data - 1,
            top == data * quotient + rest,
            0 <= rest < data,
    ;
    assert(quotient == 0 ==> length == 0) by (nonlinear_arith)
        requires
            quotient * data >= length,
    ;
}

/// A code has data and parity shards, together no more than a code over bytes can have.
pub proof fn law_code_fits_a_byte(data: nat, parity: nat)
    ensures
        config_check(data, parity) is Ok <==> data > 0 && parity > 0 && data + parity <= 256,
        data == 0 || parity == 0 ==> config_check(data, parity) == Err::<(), KestrelCastError>(
            KestrelCastError::EmptyShardClass,
        ),
{
}

/// A block is cut into one shred per shard, each of which names the block by its hash,
/// its own place, the shape of the code and the length of the block.
pub proof fn law_shreds_name_their_block(block: Seq<u8>, data: nat, parity: nat, i: int)
    requires
        config_check(data, parity) is Ok,
        block.len() <= u64::MAX,
        0 <= i < data + parity,
    ensures
        shreds_of(block, data, parity).len() == data + parity,
        ({
            let shred = shreds_of(block, data, parity)[i];
            &&& shred.block_id == hash_of(block)
            &&& shred.index == i
            &&& shred.data_shards == data
            &&& shred.parity_shards == parity
            &&& shred.original_len == block.len()
            &&& i < data ==> {
                let length = shard_length(block.len(), data);
                &&& shred.payload.len() == length
                &&& forall|k: int|
                    0 <= k < length ==> #[trigger] shred.payload[k] == if i * length + k
                        < block.len() {
                        block[i * length + k]
                    } else {
                        0u8
                    }
            }
        }),
{
    if i < data {
        let length = shard_length(block.len(), data) as int;
        assert(i * length + length == (i + 1) * length <= data * length && 0 <= i * length)
            by (nonlinear_arith)
            requires
                0 <= i < data,
                length >= 0,
        ;
    }
}

/// What is put together from shreds is the block that they name: it has the identity and
/// the length that each of them states, and came from enough of them, no two for one
/// place.
pub proof fn law_reconstructed_block_is_the_named_one(
    shreds: Seq<ShredModel>,
    block: Seq<u8>,
    i: int,
    j: int,
)
    requires
        reconstruction(shreds) == Ok::<Seq<u8>, KestrelCastError>(block),
        0 <= i < shreds.len(),
        0 <= j < shreds.len(),
    ensures
        shreds[i].block_id == hash_of(block),
        shreds[i].original_len == block.len(),
        shreds[i].index < shreds[i].data_shards + shreds[i].parity_shards,
        shreds[i].data_shards == shreds[j].data_shards,
        shreds[i].parity_shards == shreds[j].parity_shards,
        shreds[i].payload.len() == shreds[j].payload.len(),
        shreds.len() >= shreds[i].data_shards > 0,
        i != j ==> shreds[i].index != shreds[j].index,
{
    lemma_no_refusal(shreds, shreds.len(), i);
    lemma_no_refusal(shreds, shreds.len(), j);
}

proof fn lemma_no_refusal(shreds: Seq<ShredModel>, count: nat, i: int)
    requires
        first_refusal(shreds, count) is None,
        0 <= i < count,
    ensures
        shred_refusal(shreds, i) is None,
    decreases count,
{
    if i < count - 1 {
        lemma_no_refusal(shreds, (count - 1) as nat, i);
    }
}

/// Too few shreds give no block.
pub proof fn law_too_few_shreds_give_nothing(shreds: Seq<ShredModel>)
    requires
        shreds.len() > 0,
        shreds.len() < shreds[0].data_shards,
    ensures
        reconstruction(shreds) is Err,
{
}

/// Relays are drawn by stake and without replacement: each draw weighs every candidate
/// that is left by its own stake, the one that it hits becomes a relay, and the others
/// are left.
pub proof fn law_relays_are_drawn_by_stake(
    seed: Seq<u8>,
    candidates: Seq<RelayCandidate>,
    count: nat,
)
    ensures
        relay_choice(seed, candidates, 0).remaining == candidates,
        relay_choice(seed, candidates, 0).relays.len() == 0,
        ({
            let before = relay_choice(seed, candidates, count);
            let after = relay_choice(seed, candidates, count + 1);
            let left = before.remaining;
            let drawn = weighted_draws(seed, after.weights).last();
            &&& left.len() == 0 ==> after == before
            &&& left.len() > 0 ==> {
                &&& after.weights.len() == before.weights.len() + 1
                &&& after.weights.drop_last() == before.weights
                &&& after.weights.last().len() == left.len()
                &&& forall|i: int|
                    0 <= i < left.len() ==> #[trigger] after.weights.last()[i] == left[i].stake
                &&& drawn < left.len() ==> {
                    &&& after.relays.len() == before.relays.len() + 1
                    &&& after.relays.drop_last() == before.relays
                    &&& after.relays.last() == left[drawn as int].id
                    &&& after.remaining.len() == left.len() - 1
                    &&& forall|i: int|
                        0 <= i < left.len() && i != drawn ==> after.remaining.contains(
                            #[trigger] left[i],
                        )
                }
            }
        }),
{
    let before = relay_choice(seed, candidates, count);
    let after = relay_choice(seed, candidates, count + 1);
    let left = before.remaining;
    if left.len() > 0 {
        assert(after.weights.drop_last() =~= before.weights);
        let drawn = weighted_draws(seed, after.weights).last();
        if drawn < left.len() {
            assert(after.relays.drop_last() =~= before.relays);
            assert forall|i: int|
                0 <= i < left.len() && i != drawn implies after.remaining.contains(
                #[trigger] left[i],
            ) by {
                if i < left.len() - 1 {
                    assert(after.remaining[i] == left[i]);
                } else {
                    assert(after.remaining[drawn as int] == left[i]);
                }
            }
        }
    }
}

/// Every shred of a plan goes to as many relays as the replication factor asks for, or
/// to all where there are fewer: to the one whose turn it is and to those after it,
/// going round.
pub proof fn law_plan_hands_each_shred_to_its_relays(
    block_id: Hash256,
    shreds: Seq<ShredModel>,
    candidates: Seq<RelayCandidate>,
    relay_count: usize,
    replication_factor: usize,
    plan: RelayPlan,
    i: int,
    k: int,
)
    requires
        planned_as(block_id, shreds, candidates, relay_count, replication_factor, Ok(plan)),
        0 <= i < shreds.len(),
        0 <= k < plan.relays@.len(),
        forall|a: int, b: int| #![trigger shreds[a], shreds[b]]
            0 <= a < b < shreds.len() ==> shreds[a] != shreds[b],
    ensures
        plan.assignments@.contains_key(plan.relays@[k]),
        ({
            let relays = plan.relays@.len() as int;
            let copies = if replication_factor < relays {
                replication_factor as int
            } else {
                relays
            };
            shred_models(plan.assignments@[plan.relays@[k]]@).contains(shreds[i]) <==> exists|
                copy: int,
            |
                0 <= copy < copies && k == #[trigger] ((i + copy) % relays)
        }),
        plan.relays@.no_duplicates(),
        plan.relays@.len() == if relay_count < candidates.len() {
            relay_count as nat
        } else {
            candidates.len()
        },
{
    let relays = plan.relays@.len();
    let copies = at_most(replication_factor as nat, relays);
    let sorted = choose|sorted: Seq<RelayCandidate>|
        follows(
            plan,
            (#[trigger] relay_choice(block_id@, sorted, relay_count as nat)).relays,
            shreds,
            copies,
        );
    assert(plan.relays@.to_set().contains(plan.relays@[k]));
    lemma_held(shreds, k, relays as int, copies as int, i);
    law_each_shred_has_its_replicas(i, relays as int, copies as int, k);
}

proof fn lemma_held(shreds: Seq<ShredModel>, position: int, relays: int, copies: int, i: int)
    requires
        0 <= i < shreds.len(),
        forall|a: int, b: int| #![trigger shreds[a], shreds[b]]
            0 <= a < b < shreds.len() ==> shreds[a] != shreds[b],
    ensures
        held_by(shreds, position, relays, copies).contains(shreds[i]) <==> holds(
            position,
            i,
            relays,
            copies,
        ),
    decreases shreds.len(),
{
    let shorter = shreds.drop_last();
    let last = shreds.len() - 1;
    let earlier = held_by(shorter, position, relays, copies);
    let all = held_by(shreds, position, relays, copies);
    assert forall|a: int, b: int| #![trigger shorter[a], shorter[b]]
        0 <= a < b < shorter.len() implies shorter[a] != shorter[b] by {
        assert(shorter[a] == shreds[a] && shorter[b] == shreds[b]);
    }
    if i < last {
        lemma_held(shorter, position, relays, copies, i);
        assert(shorter[i] == shreds[i] && shreds[i] != shreds[last]);
    } else {
        lemma_held_come_from(shorter, position, relays, copies);
        if earlier.contains(shreds[i]) {
            let a = choose|a: int| 0 <= a < earlier.len() && earlier[a] == shreds[i];
            assert(shorter.contains(earlier[a]));
            let b = choose|b: int| 0 <= b < shorter.len() && shorter[b] == earlier[a];
            assert(shreds[b] == shreds[i]);
        }
    }
    if earlier.contains(shreds[i]) {
        let a = choose|a: int| 0 <= a < earlier.len() && earlier[a] == shreds[i];
        assert(all[a] == shreds[i]);
    }
    if holds(position, last, relays, copies) {
        assert(all[earlier.len() as int] == shreds[last]);
        if all.contains(shreds[i]) && i < last {
            let a = choose|a: int| 0 <= a < all.len() && all[a] == shreds[i];
            assert(earlier[a] == shreds[i]);
        }
    }
}

proof fn lemma_held_come_from(shreds: Seq<ShredModel>, position: int, relays: int, copies: int)
    ensures
        forall|a: int|
            0 <= a < held_by(shreds, position, relays, copies).len() ==> shreds.contains(
                #[trigger] held_by(shreds, position, relays, copies)[a],
            ),
    decreases shreds.len(),
{
    if shreds.len() > 0 {
        let shorter = shreds.drop_last();
        lemma_held_come_from(shorter, position, relays, copies);
        let earlier = held_by(shorter, position, relays, copies);
        let all = held_by(shreds, position, relays, copies);
        assert forall|a: int| 0 <= a < all.len() implies shreds.contains(#[trigger] all[a]) by {
            if a < earlier.len() {
                assert(shorter.contains(earlier[a]));
                let b = choose|b: int| 0 <= b < shorter.len() && shorter[b] == earlier[a];
                assert(shreds[b] == all[a]);
            } else {
                assert(shreds[shreds.len() - 1] == all[a]);
            }
        }
    }
}

/// What is too large for its budget is refused as such and never queued; what fits is
/// refused only where the queue did not take it.
pub proof fn law_budget_is_checked_first(
    len: nat,
    budget: usize,
    too_large: GossipError,
    accepted: bool,
    unavailable: GossipError,
)
    ensures
        ({
            let result = queueing_result(len, budget, too_large, accepted, unavailable);
            &&& result is Ok <==> len <= budget && accepted
            &&& len > budget ==> result == Err::<(), GossipError>(too_large)
            &&& len <= budget && !accepted ==> result == Err::<(), GossipError>(unavailable)
        }),
{
}

/// Whether something is dropped is settled by what it is: a part in ten thousand of all
/// samples for each basis point. A higher rate drops all that a lower one drops.
pub proof fn law_higher_rate_drops_more(low: u16, high: u16, parts: Seq<Seq<u8>>)
    requires
        low <= high,
    ensures
        is_dropped(low, parts) ==> is_dropped(high, parts),
        0 <= drop_sample(hash_of(drop_bytes(parts))) < 10_000,
        is_dropped(high, parts) <==> drop_sample(hash_of(drop_bytes(parts))) < high,
{
    let digest = hash_of(drop_bytes(parts));
    assert(0 <= digest@[0] * 256 + digest@[1]);
}

/// What arrives is handed up as it came, with the peer that it came from; a shred over
/// the budget is acknowledged and goes no further.
pub proof fn law_arrivals_are_handed_up(
    faults: NetworkFaults,
    shred_max_bytes: usize,
    local: Seq<u8>,
    peer: PeerBytes,
    author: Option<PeerBytes>,
    bytes: Vec<u8>,
    shred: Shred,
    relay_requested: bool,
    height: u64,
)
    ensures
        reaction(
            faults,
            shred_max_bytes,
            local,
            NetworkEvent::RequestReceived {
                peer,
                request: ShredRequest::Deliver { shred, relay_requested },
            },
        ) matches NetworkAction::HandUpShred { shred: inbound } ==> {
            &&& shred.payload@.len() <= shred_max_bytes
            &&& inbound.source == peer
            &&& inbound.shred == shred
            &&& inbound.relay_requested == relay_requested
        },
        shred.payload@.len() <= shred_max_bytes ==> reaction(
            faults,
            shred_max_bytes,
            local,
            NetworkEvent::RequestReceived {
                peer,
                request: ShredRequest::Deliver { shred, relay_requested },
            },
        ) is HandUpShred,
        shred.payload@.len() > shred_max_bytes ==> reaction(
            faults,
            shred_max_bytes,
            local,
            NetworkEvent::RequestReceived {
                peer,
                request: ShredRequest::Deliver { shred, relay_requested },
            },
        ) is Acknowledge,
        reaction(
            faults,
            shred_max_bytes,
            local,
            NetworkEvent::RequestReceived { peer, request: ShredRequest::RepairPayload { height } },
        ) == (NetworkAction::HandUpRepair { peer, height }),
        reaction(
            faults,
            shred_max_bytes,
            local,
            NetworkEvent::TransactionReceived { author, propagated_by: peer, bytes },
        ) matches NetworkAction::HandUpTransaction { transaction } && transaction.bytes == bytes && (
        author is Some ==> transaction.source == author) && (author is None ==> transaction.source
            == Some(peer)),
        reaction(
            faults,
            shred_max_bytes,
            local,
            NetworkEvent::RepairQueued { peer, height },
        ) == (NetworkAction::Send {
            delay_ms: 0,
            peer,
            request: ShredRequest::RepairPayload { height },
        }),
        reaction(faults, shred_max_bytes, local, NetworkEvent::BanQueued { peer })
            == (NetworkAction::Block { peer }),
{
}

/// A node dials every configured peer but itself, each once and in the given order.
pub proof fn law_node_dials_everyone_else(peers: Seq<ConfiguredPeer>, local: Seq<u8>, i: int)
    ensures
        other_peers(peers, local).contains(i) <==> 0 <= i < peers.len() && peers[i].peer_id@
            != local,
        forall|a: int| 0 <= a < other_peers(peers, local).len() ==> #[trigger]
            other_peers(peers, local)[a] < peers.len(),
        forall|a: int, b: int|
            0 <= a < b < other_peers(peers, local).len() ==> #[trigger] other_peers(
                peers,
                local,
            )[a] < #[trigger] other_peers(peers, local)[b],
    decreases peers.len(),
{
    if peers.len() > 0 {
        let shorter = peers.drop_last();
        law_node_dials_everyone_else(shorter, local, i);
        let earlier = other_peers(shorter, local);
        let all = other_peers(peers, local);
        if earlier.contains(i) {
            let a = choose|a: int| 0 <= a < earlier.len() && earlier[a] == i;
            assert(all[a] == i);
        }
        if peers.last().peer_id@ != local {
            assert(all[earlier.len() as int] == peers.len() - 1);
        }
        if all.contains(i) {
            let a = choose|a: int| 0 <= a < all.len() && all[a] == i;
            if a < earlier.len() {
                assert(earlier[a] == i);
            }
        }
    }
}

/// The sample of a digest is the number that its first two bytes spell, counted around
/// ten thousand.
pub proof fn law_sample_is_the_first_two_bytes(digest: Hash256)
    ensures
        0 <= drop_sample(digest) < 10_000,
        exists|rounds: int|
            0 <= rounds && #[trigger] (rounds * 10_000) + drop_sample(digest) == 256 * digest@[0]
                + digest@[1],
{
    let number = digest@[0] * 256 + digest@[1];
    assert(0 <= number);
    let rounds = number / 10_000;
    assert(rounds * 10_000 + drop_sample(digest) == number);
}

/// What settles a drop covers every part of the message: two that differ in their last
/// part alone are settled apart, and so are those of one length each that differ anywhere.
pub proof fn law_drops_are_settled_by_the_message(
    sender: Seq<u8>,
    message: Seq<u8>,
    other_sender: Seq<u8>,
    other_message: Seq<u8>,
)
    requires
        drop_bytes(seq![sender, message]) == drop_bytes(seq![other_sender, other_message]),
        sender.len() == other_sender.len(),
    ensures
        sender == other_sender,
        message == other_message,
{
    let domain = text_bytes("kestrel/network/drop/v1");
    lemma_two_joined(sender, message);
    lemma_two_joined(other_sender, other_message);
    lemma_concat_injective(domain, sender + message, domain, other_sender + other_message);
    lemma_concat_injective(sender, message, other_sender, other_message);
}

proof fn lemma_two_joined(first: Seq<u8>, second: Seq<u8>)
    ensures
        joined(seq![first, second]) == first + second,
{
    let both = seq![first, second];
    assert(both.drop_last() =~= seq![first]);
    assert(seq![first].drop_last() =~= Seq::<Seq<u8>>::empty());
    reveal_with_fuel(joined, 3);
    assert(joined(both) =~= first + second);
}

/// A queued shred is lost exactly while the outage lasts or where the drop of this node,
/// that peer and that payload says so; otherwise it goes to that peer as it was queued.
pub proof fn law_queued_shred_is_sent_or_dropped(
    faults: NetworkFaults,
    shred_max_bytes: usize,
    local: Seq<u8>,
    peer: PeerBytes,
    shred: Shred,
    relay_requested: bool,
    elapsed_ms: u64,
)
    ensures
        ({
            let action = reaction(
                faults,
                shred_max_bytes,
                local,
                NetworkEvent::ShredQueued { peer, shred, relay_requested, elapsed_ms },
            );
            let lost = elapsed_ms < faults.shred_outage_ms || drop_sample(
                hash_of(drop_bytes(seq![local, peer@, shred.payload@])),
            ) < faults.shred_drop_basis_points;
            &&& lost ==> action is Continue
            &&& !lost ==> action == (NetworkAction::Send {
                delay_ms: faults.outbound_delay_ms,
                peer,
                request: ShredRequest::Deliver { shred, relay_requested },
            })
        }),
{
    law_higher_rate_drops_more(
        0,
        faults.shred_drop_basis_points,
        seq![local, peer@, shred.payload@],
    );
}

/// A queued transaction is lost exactly where the drop of this node and that transaction
/// says so; otherwise it is published as it was queued.
pub proof fn law_queued_transaction_is_published_or_dropped(
    faults: NetworkFaults,
    shred_max_bytes: usize,
    local: Seq<u8>,
    bytes: Vec<u8>,
)
    ensures
        ({
            let action = reaction(
                faults,
                shred_max_bytes,
                local,
                NetworkEvent::TransactionQueued { bytes },
            );
            let lost = drop_sample(hash_of(drop_bytes(seq![local, bytes@])))
                < faults.transaction_drop_basis_points;
            &&& lost ==> action is Continue
            &&& !lost ==> action == (NetworkAction::Publish {
                delay_ms: faults.outbound_delay_ms,
                bytes,
            })
        }),
{
    law_higher_rate_drops_more(0, faults.transaction_drop_basis_points, seq![local, bytes@]);
}

/// A shred is sent on with the request to relay it only where that is asked for.
pub proof fn law_relaying_is_asked_for_by_name(
    network: &NetworkHandle,
    peer: PeerBytes,
    shred: Shred,
    plain: Result<(), GossipError>,
    relayed: Result<(), GossipError>,
)
    requires
        call_ensures(NetworkHandle::try_send_shred, (network, peer, shred), plain),
        call_ensures(NetworkHandle::try_send_relay_shred, (network, peer, shred), relayed),
    ensures
        plain is Ok ==> network.shred_offered(
            OutboundShred { peer, shred, relay_requested: false },
            true,
        ),
        relayed is Ok ==> network.shred_offered(
            OutboundShred { peer, shred, relay_requested: true },
            true,
        ),
{
}

} // verus!
