//! Admission, proposals, shreds, repair and bans of the transaction pipeline.

use std::collections::{BTreeMap, BTreeSet};

use kestrel::consensus::{CertificateKind, FinalizedOrder, QuorumCertificate, Validator};
use kestrel::crypto::{Bls12381Scheme, CryptoError, Ed25519Scheme, SignatureScheme};
use kestrel::execution::{AccessMode, DeclaredObjectRef, ExecutableTransaction, MoveOperation};
use kestrel::mempool::MempoolError;
use kestrel::network::{
    GossipError, InboundShred, KestrelCast, KestrelCastConfig, KestrelCastError, NetworkHandle,
    OutboundRepair, OutboundShred, Shred,
};
use kestrel::node::arguments::new_genesis;
use kestrel::node::genesis::{GenesisDocument, GenesisValidator};
use kestrel::node::lifecycle::{LifecycleError, PayloadDecoding, SignedExecutionPayload};
use kestrel::node::payload::{signed_transaction_id, PropagatedBlock};
use kestrel::node::pipeline::{
    admission_key, ban_key, evict_stale_shred_group, is_peer_misbehaviour, persisted_bans,
    requests_ban, tally_offense, OffenseCounts, PipelineError, ShredStats, Stage2PipelineConfig,
};
use kestrel::node::propagation::{decode_gossiped, PipelineProposalSource};
use kestrel::node::proposal_source::AdmissionStep;
use kestrel::node::stage2::Stage2Pipeline;
use kestrel::ordered::OrderedMap;
use kestrel::types::{Address, Hash256, Object, Owner, Transaction};
use tokio::sync::mpsc;

struct Queues {
    transactions: mpsc::Receiver<Vec<u8>>,
    shreds: mpsc::Receiver<OutboundShred>,
    _repairs: mpsc::Receiver<OutboundRepair>,
    _bans: mpsc::Receiver<Vec<u8>>,
}

fn network(capacity: usize) -> (NetworkHandle, Queues) {
    let (transaction_sender, transactions) = mpsc::channel(capacity);
    let (shred_sender, shreds) = mpsc::channel(capacity);
    let (repair_sender, repairs) = mpsc::channel(capacity);
    let (ban_sender, bans) = mpsc::channel(capacity);
    let handle = NetworkHandle {
        transaction_sender,
        shred_sender,
        repair_sender,
        ban_sender,
        transaction_max_bytes: 4_096,
        shred_max_bytes: 4_096,
    };
    let queues = Queues {
        transactions,
        shreds,
        _repairs: repairs,
        _bans: bans,
    };
    (handle, queues)
}

fn genesis() -> GenesisDocument {
    let validators = (1_u8..=4)
        .map(|index| {
            let key = [index; 32];
            GenesisValidator {
                name: format!("validator-{index}"),
                validator: Validator {
                    id: Hash256::digest(&[index]),
                    stake: 25,
                    public_key: Bls12381Scheme.public_key(&key).unwrap(),
                    proof_of_possession: Bls12381Scheme.proof_of_possession(&key).unwrap(),
                },
                network_address: format!("127.0.0.1:{}", 9_000 + u16::from(index)),
                rpc_address: format!("127.0.0.1:{}", 10_000 + u16::from(index)),
                gossip_peer_id: String::new(),
                gossip_address: String::new(),
            }
        })
        .collect();
    new_genesis("pipeline".to_owned(), 1, Vec::new(), validators)
}

fn peers() -> OrderedMap<Hash256, Vec<u8>> {
    let mut peers = OrderedMap::new();
    for index in 1_u8..=4 {
        peers.insert(Hash256::digest(&[index]), vec![index]);
    }
    peers
}

fn same_peers(peers: &OrderedMap<Hash256, Vec<u8>>) -> OrderedMap<Hash256, Vec<u8>> {
    let mut copy = OrderedMap::new();
    for id in peers.keys() {
        copy.insert(id, peers.get(&id).unwrap().clone());
    }
    copy
}

fn source_with(config: Stage2PipelineConfig) -> PipelineProposalSource {
    PipelineProposalSource::new(&genesis(), &[1], peers(), OrderedMap::new(), 0, config).unwrap()
}

/// A pipeline of the peer `local` that continues after a height, with its source.
fn pipeline_at(
    local: u8,
    height: u64,
    config: Stage2PipelineConfig,
) -> (Stage2Pipeline, PipelineProposalSource) {
    Stage2Pipeline::new(
        &genesis(),
        vec![local],
        peers(),
        OrderedMap::new(),
        height,
        config,
    )
    .unwrap()
}

fn source() -> PipelineProposalSource {
    source_with(Stage2PipelineConfig::default())
}

/// What the payload bytes of a test transaction hold.
type Fields = ([u8; 32], [u8; 32], u128, u128);

fn signed(key: u8, nonce: u64, priority: u128) -> Transaction {
    let private_key = [key; 32];
    let public_key = Ed25519Scheme.public_key(&private_key).unwrap();
    let sender = Ed25519Scheme.address(&public_key).unwrap();
    let fields: Fields = (sender.bytes, Hash256::digest(&[key]).bytes, 100, priority);
    let mut transaction = Transaction {
        sender,
        nonce,
        payload: bcs::to_bytes(&fields).unwrap(),
        scheme_id: 1,
        public_key,
        signature: Vec::new(),
    };
    transaction.signature = Ed25519Scheme
        .sign(&private_key, &transaction.signing_message())
        .unwrap();
    transaction
}

fn decoding(transaction: &Transaction) -> PayloadDecoding {
    let fields: Result<Fields, _> = bcs::from_bytes(&transaction.payload);
    match fields {
        Err(error) => PayloadDecoding {
            signed: None,
            bare: Err(error.to_string()),
        },
        Ok((sender, id, maximum, priority)) => {
            let sender = Address::from_bytes(sender);
            let id = Hash256::from_bytes(id);
            let executable = ExecutableTransaction {
                operation: MoveOperation::CreateObject {
                    sender,
                    object: Object {
                        id,
                        owner: Owner::Single(sender),
                        type_tag: "pipeline::Object".to_owned(),
                        version: 0,
                        data: vec![1],
                        rent_balance: 1,
                    },
                },
                object_references: vec![DeclaredObjectRef {
                    id,
                    owner: Owner::Single(sender),
                    access: AccessMode::Write,
                }],
                compute_limit: 1_000,
            };
            PayloadDecoding {
                signed: Some(SignedExecutionPayload::new(
                    executable,
                    maximum,
                    priority,
                    Vec::new(),
                )),
                bare: Err("not an executable alone".to_owned()),
            }
        }
    }
}

fn take_up(
    source: &mut PipelineProposalSource,
    transaction: &Transaction,
) -> Result<Hash256, PipelineError> {
    let step = source.state().prepare_admission(
        source.validator(),
        transaction.clone(),
        decoding(transaction),
    )?;
    match step {
        AdmissionStep::Known(id) => Ok(id),
        AdmissionStep::Store(admission) => {
            assert_eq!(decode_gossiped(&admission.encoded).unwrap(), *transaction);
            source.state_mut().complete_admission(admission)
        }
    }
}

fn order_of(payload: &PropagatedBlock) -> FinalizedOrder {
    FinalizedOrder {
        height: payload.height,
        block_id: Hash256::digest(&payload.height.to_be_bytes()),
        transaction_ids: payload.transaction_ids().unwrap(),
        fee_commitment: payload.fee_commitment(),
        certificate: QuorumCertificate {
            kind: CertificateKind::Fast,
            height: payload.height,
            view: 0,
            block_id: Hash256::default(),
            signers: Vec::new(),
            signed_stake: 0,
            aggregate_signature: Vec::new(),
        },
    }
}

#[test]
fn a_full_shred_buffer_evicts_the_stalest_group_instead_of_wedging() {
    let capacity = 4;
    let mut shreds: OrderedMap<Hash256, OrderedMap<u16, Shred>> = OrderedMap::new();
    let mut arrivals: OrderedMap<Hash256, u64> = OrderedMap::new();

    // Fill the buffer with groups that will never complete, which is what
    // happens in practice: a validator receives shreds for blocks it does
    // not need, and partial sets it can never finish.
    for index in 0..capacity {
        let block = Hash256::digest(&[u8::try_from(index).unwrap()]);
        shreds.insert(block, OrderedMap::new());
        arrivals.insert(block, index as u64);
    }
    assert_eq!(shreds.len(), capacity);

    // A shred for a new block must still be accepted.
    let wanted = Hash256::digest(b"the block execution is waiting for");
    assert!(evict_stale_shred_group(
        &mut shreds,
        &mut arrivals,
        capacity,
        wanted
    ));
    // The stalest group made way, and the bound still holds.
    assert!(!shreds.contains_key(&Hash256::digest(&[0_u8])));
    assert_eq!(shreds.len(), capacity - 1);

    // An in-flight group is never evicted to make room for itself.
    let existing = Hash256::digest(&[1_u8]);
    assert!(evict_stale_shred_group(
        &mut shreds,
        &mut arrivals,
        capacity,
        existing
    ));
    assert!(shreds.contains_key(&existing));
}

#[test]
fn routine_gossip_races_are_not_counted_as_peer_offenses() {
    // An honest validator re-gossiping a transaction that has since
    // committed produces exactly this, and must never be banned for it.
    assert!(!is_peer_misbehaviour(&PipelineError::NonceMismatch {
        expected: 1,
        received: 0,
    }));
    assert!(!is_peer_misbehaviour(
        &PipelineError::SenderAlreadyReserved(Address::from_bytes([7; 32]))
    ));
    // Local congestion and our own internal faults are not the peer's doing.
    assert!(!is_peer_misbehaviour(
        &PipelineError::InflightShredLimitReached
    ));
    assert!(!is_peer_misbehaviour(&PipelineError::LockPoisoned));

    // Genuine misbehaviour a peer is accountable for still counts.
    assert!(is_peer_misbehaviour(&PipelineError::Encoding(
        "malformed bytes".to_owned()
    )));
    assert!(is_peer_misbehaviour(&PipelineError::NonceOverflow));
}

#[test]
fn persisted_bans_survive_a_store_reopen_and_tolerate_corrupt_entries() {
    let banned = libp2p::PeerId::random();
    let also_banned = libp2p::PeerId::random();

    // First run: store two bans, plus a corrupt ban record whose key does not
    // decode to a peer.
    let mut store: BTreeMap<Vec<u8>, Vec<u8>> = BTreeMap::new();
    store.insert(ban_key(&banned.to_bytes()), Vec::new());
    store.insert(ban_key(&also_banned.to_bytes()), Vec::new());
    let mut corrupt = b"pipeline/ban/v1/".to_vec();
    corrupt.extend_from_slice(b"not-a-peer-id");
    store.insert(corrupt.clone(), Vec::new());

    // Second run: both real bans must come back; the corrupt entry is named.
    let keys: Vec<Vec<u8>> = store.keys().cloned().collect();
    let restored = persisted_bans(&keys);
    assert_eq!(
        restored
            .peers
            .iter()
            .map(|peer| libp2p::PeerId::from_bytes(peer).unwrap())
            .collect::<BTreeSet<_>>(),
        BTreeSet::from([banned, also_banned]),
        "every persisted ban must be re-read after a restart"
    );
    assert_eq!(restored.corrupt.len(), 1);
    for position in restored.corrupt {
        assert_eq!(keys[position], corrupt);
        store.remove(&keys[position]);
    }
    // With the corrupt record deleted, a second pass returns only the two
    // valid bans and leaves nothing malformed behind.
    let keys: Vec<Vec<u8>> = store.keys().cloned().collect();
    assert_eq!(persisted_bans(&keys).peers.len(), 2);
    assert!(persisted_bans(&keys).corrupt.is_empty());
}

#[test]
fn tally_offense_crosses_the_ban_threshold_exactly_once() {
    let threshold = 3;
    let mut counts = OffenseCounts::new();
    let peer = libp2p::PeerId::random().to_bytes();
    let other = libp2p::PeerId::random().to_bytes();

    assert_eq!(tally_offense(&mut counts, &peer), 1);
    assert_eq!(tally_offense(&mut counts, &peer), 2);
    // The offending peer crosses the threshold on its third offense...
    assert_eq!(tally_offense(&mut counts, &peer), threshold);
    // ...and every offense after that keeps counting rather than
    // re-triggering (the caller compares for equality, not `>=`, so a
    // ban is requested exactly once per peer).
    assert_eq!(tally_offense(&mut counts, &peer), threshold + 1);
    assert_ne!(tally_offense(&mut counts, &peer), threshold);

    // A well-behaved peer's count is completely independent.
    assert_eq!(tally_offense(&mut counts, &other), 1);
    assert!(requests_ban(3, 3) && !requests_ban(4, 3));
}

#[test]
fn admissions_are_refused_for_each_reason() {
    let mut source = source();
    let first = signed(1, 0, 2);
    let id = take_up(&mut source, &first).unwrap();
    assert_eq!(id, signed_transaction_id(&first).unwrap());
    assert_eq!(take_up(&mut source, &first), Ok(id));
    assert_eq!(
        take_up(&mut source, &signed(1, 0, 3)),
        Err(PipelineError::SenderAlreadyReserved(first.sender))
    );
    assert_eq!(
        take_up(&mut source, &signed(2, 5, 1)),
        Err(PipelineError::NonceMismatch {
            expected: 0,
            received: 5
        })
    );
    let mut forged = signed(3, 0, 1);
    forged.nonce = 1;
    assert!(matches!(
        take_up(&mut source, &forged),
        Err(PipelineError::Lifecycle(LifecycleError::Crypto(_)))
    ));
    assert_eq!(
        take_up(&mut source, &signed(4, 0, 100)),
        Err(PipelineError::Mempool(MempoolError::FeeCapTooLow {
            required: 101,
            offered: 100
        }))
    );
    assert!(!source.is_empty());
    assert_eq!(admission_key(id).len(), 27 + 32);
    assert!(decode_gossiped(b"not a valid bcs-encoded transaction envelope").is_err());
}

#[test]
fn a_refused_publication_rolls_the_admission_back() {
    let (handle, mut queues) = network(1);
    let mut source = source();
    let first = signed(1, 0, 2);
    let id = take_up(&mut source, &first).unwrap();
    assert_eq!(source.publish_admitted(id, vec![1, 2], &handle), Ok(id));
    let second = signed(2, 0, 2);
    let id = take_up(&mut source, &second).unwrap();
    assert_eq!(
        source.publish_admitted(id, vec![3], &handle),
        Err(PipelineError::Gossip(GossipError::TransactionQueueUnavailable))
    );
    assert_eq!(queues.transactions.try_recv().unwrap(), vec![1, 2]);
    let payload = source
        .state_mut()
        .build_or_get_payload(1, Hash256::default(), 10)
        .unwrap();
    assert_eq!(payload.transactions, vec![first]);
    assert!(take_up(&mut source, &second).is_ok());
}

#[test]
fn proposals_are_built_once_and_only_for_the_next_height() {
    let (handle, mut queues) = network(1_000);
    let mut source = source();
    assert!(source.can_draw());
    assert!(source.is_empty());
    take_up(&mut source, &signed(1, 0, 2)).unwrap();
    take_up(&mut source, &signed(2, 0, 3)).unwrap();
    let parent = Hash256::digest(b"parent");
    assert!(source.transaction_ids(2, parent, &handle).is_none());
    assert_eq!(
        source.state_mut().build_or_get_payload(2, parent, 10).err(),
        Some(PipelineError::PreviousHeightNotRetired {
            height: 2,
            retired_height: 0
        })
    );
    let order = source.transaction_ids(1, parent, &handle).unwrap();
    assert_eq!(order.transaction_ids.len(), 2);
    let mut sent = Vec::new();
    while let Ok(outbound) = queues.shreds.try_recv() {
        assert!(outbound.relay_requested);
        assert_ne!(outbound.peer, vec![1]);
        sent.push(outbound.shred);
    }
    assert_eq!(sent.len(), 40);
    // Asked again, the same payload is named and nothing is sent a second time.
    let again = source.transaction_ids(1, parent, &handle).unwrap();
    assert_eq!(again.transaction_ids, order.transaction_ids);
    assert_eq!(again.fee_commitment, order.fee_commitment);
    assert!(queues.shreds.try_recv().is_err());
    let payload = source.state_mut().build_or_get_payload(1, parent, 10).unwrap();
    assert_eq!(payload.base_fees, vec![1, 1]);
    assert_eq!(payload.fee_commitment(), order.fee_commitment);
    assert_eq!(PropagatedBlock::from_shreds(&sent[..0]).is_err(), true);
}

#[test]
fn shreds_rebuild_the_payload_that_an_order_names() {
    let (handle, mut queues) = network(1_000);
    let mut leader = source();
    take_up(&mut leader, &signed(1, 0, 2)).unwrap();
    let parent = Hash256::digest(b"parent");
    leader.transaction_ids(1, parent, &handle).unwrap();
    let payload = leader.state_mut().build_or_get_payload(1, parent, 10).unwrap();
    let order = order_of(&payload);
    let mut shreds: BTreeMap<u16, Shred> = BTreeMap::new();
    while let Ok(outbound) = queues.shreds.try_recv() {
        shreds.insert(outbound.shred.index, outbound.shred);
    }
    assert_eq!(shreds.len(), 20);

    let (mut pipeline, mut follower) = pipeline_at(2, 0, Stage2PipelineConfig::default());
    take_up(&mut follower, &payload.transactions[0]).unwrap();
    pipeline.receive_order(order);
    assert!(pipeline.next_submission(&follower).unwrap().is_none());
    let mut rebuilt = None;
    for (count, shred) in shreds.into_values().enumerate() {
        let block_id = shred.block_id;
        match follower.state_mut().collect_shred(shred).unwrap() {
            None => assert!(count < 9),
            Some(block) => {
                assert_eq!(count, 9);
                assert_eq!(block, payload);
                let list = block.transactions.iter().map(decoding).collect();
                follower.accept_payload(block_id, block, list).unwrap();
                rebuilt = Some(block_id);
                break;
            }
        }
    }
    assert!(rebuilt.is_some());
    assert_eq!(
        follower.state().shred_stats(),
        ShredStats {
            shreds_received: 10,
            payloads_reconstructed: 1,
            payloads_available: 1,
            incomplete_shred_blocks: 0,
        }
    );
    let (order, found) = pipeline.next_submission(&follower).unwrap().unwrap();
    assert_eq!(order.height, 1);
    assert_eq!(found, payload);
    let gone = pipeline.submission_done(&mut follower, &found).unwrap();
    assert_eq!(gone, payload.transaction_ids().unwrap());
    assert_eq!(pipeline.submitted_height(), 1);
    assert!(follower.is_empty());
    // The follower never led the height; the transaction is still not proposed
    // again, and cannot be admitted again.
    let next = follower.state_mut().build_or_get_payload(2, order.block_id, 10).unwrap();
    assert!(next.transactions.is_empty());
    assert_eq!(
        take_up(&mut follower, &payload.transactions[0]),
        Err(PipelineError::NonceMismatch {
            expected: 1,
            received: 0
        })
    );
    // The submitted payload stays available to peers that lag.
    assert_eq!(follower.state().payload_at_height(1), Some(payload));
    let shreds = pipeline.repair_shreds(&follower, 1).unwrap();
    assert_eq!(shreds.len(), 20);
    assert!(pipeline.repair_shreds(&follower, 9).unwrap().is_empty());
}

#[test]
fn rebuilt_payloads_with_invalid_transactions_are_refused() {
    let mut source = source();
    let mut forged = signed(1, 0, 2);
    forged.signature[0] ^= 1;
    let payload = PropagatedBlock {
        height: 1,
        parent_id: Hash256::default(),
        transactions: vec![signed(2, 0, 1), forged],
        base_fees: vec![1, 1],
    };
    let list = payload.transactions.iter().map(decoding).collect();
    assert!(matches!(
        source.accept_payload(Hash256::default(), payload.clone(), list),
        Err(PipelineError::Lifecycle(LifecycleError::Crypto(_)))
    ));
    assert_eq!(source.state().payload_at_height(1), None);
    let competing = |parent: u8| PropagatedBlock {
        height: 1,
        parent_id: Hash256::default(),
        transactions: vec![signed(parent, 0, 1)],
        base_fees: vec![1],
    };
    for parent in [5_u8, 6] {
        let block = competing(parent);
        let list = block.transactions.iter().map(decoding).collect();
        source.accept_payload(Hash256::digest(&[parent]), block, list).unwrap();
    }
    for parent in [5_u8, 6] {
        let order = order_of(&competing(parent));
        assert_eq!(
            source.state().payload_for_order(&order).unwrap(),
            Some(competing(parent))
        );
    }
}

#[test]
fn a_bounded_buffer_keeps_the_newest_groups() {
    let mut source = source_with(Stage2PipelineConfig {
        maximum_inflight_shred_blocks: 2,
        ..Stage2PipelineConfig::default()
    });
    for seed in 0_u8..5 {
        let shred = Shred {
            block_id: Hash256::digest(&[seed]),
            index: 0,
            data_shards: 10,
            parity_shards: 10,
            original_len: 1,
            payload: vec![seed],
        };
        assert_eq!(source.state_mut().collect_shred(shred), Ok(None));
        let stats = source.state().shred_stats();
        assert!(stats.incomplete_shred_blocks <= 2);
        assert_eq!(stats.shreds_received, u64::from(seed) + 1);
    }
}

#[test]
fn payloads_stay_for_repair_within_a_bound() {
    let mut source = source();
    for height in 1_u64..=70 {
        let payload = PropagatedBlock {
            height,
            parent_id: Hash256::default(),
            transactions: Vec::new(),
            base_fees: Vec::new(),
        };
        source.state_mut().note_submitted(&payload).unwrap();
    }
    assert_eq!(source.state().payload_at_height(6), None);
    assert!(source.state().payload_at_height(7).is_some());
    assert!(source.state().payload_at_height(70).is_some());
    let last = PropagatedBlock {
        height: 71,
        parent_id: Hash256::default(),
        transactions: vec![signed(1, u64::MAX, 1)],
        base_fees: vec![1],
    };
    assert_eq!(
        source.state_mut().note_submitted(&last),
        Err(PipelineError::NonceOverflow)
    );
}

#[test]
fn repair_waits_doubles_and_resets() {
    let config = Stage2PipelineConfig {
        payload_repair_delay_ms: 100,
        maximum_payload_repair_backoff_ms: 300,
        ..Stage2PipelineConfig::default()
    };
    let (mut pipeline, mut source) = pipeline_at(1, 4, config);
    assert_eq!(pipeline.request_payload_repair_if_stuck(0), None);
    let payload = PropagatedBlock {
        height: 5,
        parent_id: Hash256::default(),
        transactions: Vec::new(),
        base_fees: Vec::new(),
    };
    pipeline.receive_order(order_of(&payload));
    assert_eq!(pipeline.request_payload_repair_if_stuck(1_000), None);
    assert_eq!(pipeline.request_payload_repair_if_stuck(1_099), None);
    assert_eq!(pipeline.request_payload_repair_if_stuck(1_100), Some(5));
    assert_eq!(pipeline.request_payload_repair_if_stuck(1_299), None);
    assert_eq!(pipeline.request_payload_repair_if_stuck(1_300), Some(5));
    assert_eq!(pipeline.request_payload_repair_if_stuck(1_599), None);
    assert_eq!(pipeline.request_payload_repair_if_stuck(1_600), Some(5));
    assert_eq!(pipeline.request_payload_repair_if_stuck(1_899), None);
    assert_eq!(pipeline.repair_peers(), vec_of(&[2, 3, 4]));
    assert_eq!(pipeline.relay_peers(&[3]), vec_of(&[2, 4]));
    pipeline.submission_done(&mut source, &payload).unwrap();
    assert_eq!(pipeline.submitted_height(), 5);
    assert_eq!(pipeline.request_payload_repair_if_stuck(9_000), None);
}

/// One-byte peers.
fn vec_of(seeds: &[u8]) -> Vec<Vec<u8>> {
    seeds.iter().map(|seed| vec![*seed]).collect()
}

#[test]
fn a_backlog_beyond_its_bound_is_reported() {
    let config = Stage2PipelineConfig {
        maximum_pending_orders: 2,
        ..Stage2PipelineConfig::default()
    };
    let (mut pipeline, _source) = pipeline_at(1, 0, config);
    for height in 2_u64..=3 {
        pipeline.receive_order(order_of(&PropagatedBlock {
            height,
            parent_id: Hash256::default(),
            transactions: Vec::new(),
            base_fees: Vec::new(),
        }));
        assert_eq!(pipeline.check_backlog(), Ok(()));
    }
    pipeline.receive_order(order_of(&PropagatedBlock {
        height: 4,
        parent_id: Hash256::default(),
        transactions: Vec::new(),
        base_fees: Vec::new(),
    }));
    assert_eq!(
        pipeline.check_backlog(),
        Err(PipelineError::ExecutionBacklogExceeded {
            pending: 3,
            limit: 2,
            awaiting_height: 1
        })
    );
}

#[test]
fn relays_hand_shreds_on_once() {
    let (handle, mut queues) = network(10);
    let (pipeline, _source) = pipeline_at(1, 0, Stage2PipelineConfig::default());
    let mut inbound = InboundShred {
        source: vec![2],
        shred: Shred {
            block_id: Hash256::digest(b"relayed"),
            index: 0,
            data_shards: 1,
            parity_shards: 1,
            original_len: 1,
            payload: vec![1],
        },
        relay_requested: false,
    };
    pipeline.relay_shred(&inbound, &handle).unwrap();
    assert!(queues.shreds.try_recv().is_err());
    inbound.relay_requested = true;
    pipeline.relay_shred(&inbound, &handle).unwrap();
    let mut reached = Vec::new();
    while let Ok(outbound) = queues.shreds.try_recv() {
        assert!(!outbound.relay_requested);
        reached.push(outbound.peer);
    }
    assert_eq!(reached, vec_of(&[3, 4]));
    inbound.shred.payload = vec![0; 5_000];
    assert_eq!(
        pipeline.relay_shred(&inbound, &handle),
        Err(PipelineError::Gossip(GossipError::ShredTooLarge))
    );
}

#[test]
fn peers_are_banned_once_for_misbehaviour_alone() {
    let config = Stage2PipelineConfig {
        peer_offense_ban_threshold: 2,
        ..Stage2PipelineConfig::default()
    };
    let (mut pipeline, _source) = pipeline_at(1, 0, config);
    let peer = vec![7];
    let honest = PipelineError::NonceMismatch {
        expected: 1,
        received: 0,
    };
    let malformed = PipelineError::Encoding("malformed".to_owned());
    assert!(pipeline.can_count(&peer));
    for _ in 0..5 {
        assert!(!pipeline.reject_message(Some(&peer), &honest));
    }
    assert!(!pipeline.reject_message(None, &malformed));
    assert!(!pipeline.reject_message(Some(&peer), &malformed));
    assert!(pipeline.reject_message(Some(&peer), &malformed));
    assert!(!pipeline.reject_message(Some(&peer), &malformed));
}

#[test]
fn unusable_settings_and_topologies_are_refused() {
    let build = |peers: OrderedMap<Hash256, Vec<u8>>, local: &[u8], config: Stage2PipelineConfig| {
        let alone = PipelineProposalSource::new(
            &genesis(),
            local,
            same_peers(&peers),
            OrderedMap::new(),
            0,
            config,
        )
        .err();
        let joined = Stage2Pipeline::new(
            &genesis(),
            local.to_vec(),
            peers,
            OrderedMap::new(),
            0,
            config,
        )
        .err();
        assert_eq!(alone, joined);
        joined
    };
    let good = Stage2PipelineConfig::default();
    assert_eq!(build(peers(), &[1], good), None);
    for config in [
        Stage2PipelineConfig { maximum_block_transactions: 0, ..good },
        Stage2PipelineConfig { relay_count: 0, ..good },
        Stage2PipelineConfig { replication_factor: 0, ..good },
        Stage2PipelineConfig { maximum_inflight_shred_blocks: 0, ..good },
        Stage2PipelineConfig { maximum_pending_orders: 0, ..good },
        Stage2PipelineConfig { payload_repair_delay_ms: 0, ..good },
        Stage2PipelineConfig { commit_poll_interval_ms: 0, ..good },
    ] {
        assert_eq!(
            build(peers(), &[1], config),
            Some(PipelineError::InvalidConfiguration)
        );
    }
    assert_eq!(build(peers(), &[9], good), Some(PipelineError::InvalidPeerTopology));
    let mut missing = peers();
    missing.remove(&Hash256::digest(&[4]));
    assert_eq!(build(missing, &[1], good), Some(PipelineError::InvalidPeerTopology));
    let mut foreign = peers();
    foreign.insert(Hash256::digest(&[9]), vec![9]);
    assert_eq!(build(foreign, &[1], good), Some(PipelineError::InvalidPeerTopology));
    assert_eq!(
        build(peers(), &[1], Stage2PipelineConfig { per_scope_block_limit: 0, ..good }),
        Some(PipelineError::Mempool(MempoolError::ZeroScopeLimit))
    );
    let mut unsupported = genesis();
    unsupported.active_signature_schemes = vec![9, 2, 7, 1];
    assert_eq!(
        Stage2Pipeline::new(&unsupported, vec![1], peers(), OrderedMap::new(), 0, good).err(),
        Some(PipelineError::Lifecycle(LifecycleError::Crypto(
            CryptoError::ActivatedSchemeMissing(7)
        )))
    );
    assert_eq!(good.kestrel_cast, KestrelCastConfig::default());
    assert_eq!(good.peer_offense_ban_threshold, 8);
    assert_eq!(good.maximum_payload_repair_backoff_ms, 8_000);
    assert_eq!(ShredStats::default().shreds_received, 0);
}

#[test]
fn a_full_queue_of_this_node_is_no_offense_of_a_peer() {
    for error in [
        GossipError::ShredQueueUnavailable,
        GossipError::TransactionQueueUnavailable,
        GossipError::BanQueueUnavailable,
    ] {
        assert!(!is_peer_misbehaviour(&PipelineError::Gossip(error)));
    }
    assert!(is_peer_misbehaviour(&PipelineError::Gossip(
        GossipError::ShredTooLarge
    )));
}

#[test]
fn an_order_names_the_payload_with_its_base_fees() {
    let mut source = source();
    let priced = |fee: u128| PropagatedBlock {
        height: 1,
        parent_id: Hash256::default(),
        transactions: vec![signed(5, 0, 1)],
        base_fees: vec![fee],
    };
    for fee in [1_u128, 2] {
        let list = priced(fee).transactions.iter().map(decoding).collect();
        source
            .accept_payload(Hash256::digest(&fee.to_be_bytes()), priced(fee), list)
            .unwrap();
    }
    for fee in [1_u128, 2] {
        assert_eq!(
            source.state().payload_for_order(&order_of(&priced(fee))),
            Ok(Some(priced(fee)))
        );
    }
    assert_eq!(
        source.state().payload_for_order(&order_of(&priced(3))),
        Ok(None)
    );
}

#[test]
fn a_relay_stops_at_the_first_refused_send() {
    let (handle, mut queues) = network(1);
    let (pipeline, _source) = pipeline_at(1, 0, Stage2PipelineConfig::default());
    let inbound = InboundShred {
        source: vec![2],
        shred: Shred {
            block_id: Hash256::digest(b"relayed"),
            index: 3,
            data_shards: 1,
            parity_shards: 1,
            original_len: 1,
            payload: vec![1],
        },
        relay_requested: true,
    };
    assert_eq!(
        pipeline.relay_shred(&inbound, &handle),
        Err(PipelineError::Gossip(GossipError::ShredQueueUnavailable))
    );
    let sent = queues.shreds.try_recv().unwrap();
    assert_eq!((sent.peer, sent.shred.index), (vec![3], 3));
    assert!(queues.shreds.try_recv().is_err());
}

#[test]
fn no_order_is_proposed_where_a_send_is_refused() {
    let (handle, mut queues) = network(3);
    let mut source = source();
    take_up(&mut source, &signed(1, 0, 2)).unwrap();
    let parent = Hash256::digest(b"parent");
    assert!(source.transaction_ids(1, parent, &handle).is_none());
    let mut sent = 0;
    while queues.shreds.try_recv().is_ok() {
        sent += 1;
    }
    assert_eq!(sent, 3);
    // Nothing is proposed until every shred was taken.
    let (roomy, mut taken) = network(1_000);
    assert!(source.transaction_ids(1, parent, &roomy).is_some());
    assert!(taken.shreds.try_recv().is_ok());
}

#[test]
fn offenses_of_others_do_not_bring_a_ban() {
    let config = Stage2PipelineConfig {
        peer_offense_ban_threshold: 3,
        ..Stage2PipelineConfig::default()
    };
    let (mut pipeline, _source) = pipeline_at(1, 0, config);
    let malformed = PipelineError::Encoding("malformed".to_owned());
    let mut bans = Vec::new();
    for peer in [7_u8, 8, 7, 8, 8, 7, 7] {
        if pipeline.reject_message(Some(&vec![peer]), &malformed) {
            bans.push(peer);
        }
    }
    assert_eq!(bans, vec![8, 7]);
}

#[test]
fn peers_are_listed_in_their_own_order_and_once() {
    let mut shared = OrderedMap::new();
    for (index, peer) in [(1_u8, vec![9]), (2, vec![3, 1]), (3, vec![3]), (4, vec![9])] {
        shared.insert(Hash256::digest(&[index]), peer);
    }
    let (pipeline, _source) = Stage2Pipeline::new(
        &genesis(),
        vec![9],
        shared,
        OrderedMap::new(),
        0,
        Stage2PipelineConfig::default(),
    )
    .unwrap();
    assert_eq!(pipeline.repair_peers(), vec![vec![3], vec![3, 1]]);
    assert_eq!(pipeline.relay_peers(&[3]), vec![vec![3, 1]]);
}

#[test]
fn data_shreds_alone_are_the_payload_and_empty_ones_are_refused() {
    let payload = PropagatedBlock {
        height: 3,
        parent_id: Hash256::digest(b"parent"),
        transactions: vec![signed(4, 0, 1)],
        base_fees: vec![2],
    };
    let shreds = payload.shreds(KestrelCastConfig::default()).unwrap();
    assert_eq!(PropagatedBlock::from_shreds(&shreds[..10]), Ok(payload));
    let mut joined: Vec<u8> = Vec::new();
    for shred in &shreds[..10] {
        joined.extend_from_slice(&shred.payload);
    }
    joined.truncate(usize::try_from(shreds[0].original_len).unwrap());
    assert_eq!(KestrelCast::reconstruct(&shreds[..10]), Ok(joined));
    let mut hollow = shreds;
    for shred in &mut hollow {
        shred.payload.clear();
    }
    assert_eq!(
        PropagatedBlock::from_shreds(&hollow),
        Err(LifecycleError::KestrelCast(KestrelCastError::ReedSolomon(
            "The first shard provided is of zero length".to_owned()
        )))
    );
    assert_eq!(
        PropagatedBlock::from_shreds(&[]),
        Err(LifecycleError::KestrelCast(
            KestrelCastError::InsufficientShreds {
                available: 0,
                required: 1
            }
        ))
    );
}
