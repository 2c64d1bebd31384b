//! Erasure coding, relay planning and the independent gossip paths.

use kestrel::network::service::{ban_queueing, peers_to_dial, sample_of_digest};
use kestrel::network::{
    deterministic_drop, ConfiguredPeer, GossipConfig, GossipError, KestrelCast,
    KestrelCastConfig, KestrelCastError, NetworkAction, NetworkEvent, NetworkFaults,
    NetworkHandle, OutboundRepair, OutboundShred, RelayCandidate, RunConfig, Shred, ShredRequest,
};
use kestrel::types::Hash256;
use tokio::sync::mpsc;

fn handle_with_room() -> (
    NetworkHandle,
    mpsc::Receiver<Vec<u8>>,
    mpsc::Receiver<OutboundShred>,
    mpsc::Receiver<OutboundRepair>,
    mpsc::Receiver<Vec<u8>>,
) {
    let (transaction_sender, transaction_receiver) = mpsc::channel(1);
    let (shred_sender, shred_receiver) = mpsc::channel(1);
    let (ban_sender, ban_receiver) = mpsc::channel(1);
    let (repair_sender, repair_receiver) = mpsc::channel(1);
    let handle = NetworkHandle {
        transaction_sender,
        shred_sender,
        repair_sender,
        ban_sender,
        transaction_max_bytes: 1024,
        shred_max_bytes: 1024,
    };
    (
        handle,
        transaction_receiver,
        shred_receiver,
        repair_receiver,
        ban_receiver,
    )
}

fn candidates() -> Vec<RelayCandidate> {
    (0_u8..20)
        .map(|seed| RelayCandidate {
            id: Hash256::digest(&[seed]),
            stake: u64::from(seed) + 1,
        })
        .collect()
}

#[test]
fn corruption_is_detected_after_reconstruction() {
    let codec = KestrelCast::new(KestrelCastConfig::default()).unwrap();
    let mut shreds = codec.encode(b"integrity matters").unwrap();
    shreds.truncate(codec.config().data_shards);
    shreds[0].payload[0] ^= 0xff;
    assert_eq!(
        KestrelCast::reconstruct(&shreds),
        Err(KestrelCastError::IntegrityMismatch)
    );
}

#[test]
fn relay_plan_is_deterministic_and_replicated() {
    let codec = KestrelCast::new(KestrelCastConfig::default()).unwrap();
    let shreds = codec.encode(b"block").unwrap();
    let candidates = candidates();
    let first = KestrelCast::relay_plan(shreds[0].block_id, &shreds, &candidates, 12, 2).unwrap();
    let second = KestrelCast::relay_plan(shreds[0].block_id, &shreds, &candidates, 12, 2).unwrap();
    let mut reversed = candidates.clone();
    reversed.reverse();
    let reordered =
        KestrelCast::relay_plan(shreds[0].block_id, &shreds, &reversed, 12, 2).unwrap();
    assert_eq!(first, second);
    assert_eq!(first, reordered);
    assert_eq!(first.relays.len(), 12);
    assert_eq!(
        first
            .assignments
            .keys()
            .iter()
            .map(|relay| first.assignments.get(relay).unwrap().len())
            .sum::<usize>(),
        shreds.len() * 2
    );
}

#[test]
fn any_half_of_shreds_reconstructs() {
    let codec = KestrelCast::new(KestrelCastConfig::default()).unwrap();
    for length in [0_usize, 1, 9, 10, 11, 1_000, 32_767] {
        let payload: Vec<u8> = (0..length).map(|index| (index * 7 + length) as u8).collect();
        let shreds = codec.encode(&payload).unwrap();
        assert_eq!(shreds.len(), 20);
        for start in 0..11 {
            let mut subset: Vec<Shred> = shreds[start..start + 10].to_vec();
            subset.rotate_left(start % 10);
            assert_eq!(KestrelCast::reconstruct(&subset).unwrap(), payload);
        }
        let every_other: Vec<Shred> = shreds.iter().skip(1).step_by(2).cloned().collect();
        assert_eq!(KestrelCast::reconstruct(&every_other).unwrap(), payload);
    }
}

#[test]
fn malformed_shred_sets_are_refused_for_each_reason() {
    let codec = KestrelCast::new(KestrelCastConfig {
        data_shards: 2,
        parity_shards: 2,
    })
    .unwrap();
    let shreds = codec.encode(b"refusals").unwrap();
    assert_eq!(
        KestrelCast::reconstruct(&shreds[..1]),
        Err(KestrelCastError::InsufficientShreds {
            available: 1,
            required: 2
        })
    );
    let twice = vec![shreds[0].clone(), shreds[0].clone()];
    assert_eq!(
        KestrelCast::reconstruct(&twice),
        Err(KestrelCastError::DuplicateShred(0))
    );
    let mut outside = shreds.clone();
    outside[1].index = 4;
    assert_eq!(
        KestrelCast::reconstruct(&outside),
        Err(KestrelCastError::InvalidShredIndex { index: 4, total: 4 })
    );
    let mut mixed = shreds.clone();
    mixed[1].original_len += 1;
    assert_eq!(
        KestrelCast::reconstruct(&mixed),
        Err(KestrelCastError::InconsistentMetadata)
    );
    assert!(matches!(
        KestrelCast::new(KestrelCastConfig {
            data_shards: 0,
            parity_shards: 1
        }),
        Err(KestrelCastError::EmptyShardClass)
    ));
    assert!(matches!(
        KestrelCast::new(KestrelCastConfig {
            data_shards: 200,
            parity_shards: 200
        }),
        Err(KestrelCastError::TooManyShards)
    ));
}

#[test]
fn relay_plans_need_distinct_staked_candidates() {
    let codec = KestrelCast::new(KestrelCastConfig::default()).unwrap();
    let shreds = codec.encode(b"candidates").unwrap();
    let id = shreds[0].block_id;
    let mut unstaked = candidates();
    unstaked[3].stake = 0;
    assert_eq!(
        KestrelCast::relay_plan(id, &shreds, &unstaked, 12, 2).err(),
        Some(KestrelCastError::InvalidRelayCandidate)
    );
    let mut repeated = candidates();
    repeated[3].id = repeated[4].id;
    assert_eq!(
        KestrelCast::relay_plan(id, &shreds, &repeated, 12, 2).err(),
        Some(KestrelCastError::InvalidRelayCandidate)
    );
    assert_eq!(
        KestrelCast::relay_plan(id, &shreds, &candidates(), 0, 2).err(),
        Some(KestrelCastError::InvalidRelayPlan)
    );
    let few = &candidates()[..3];
    let plan = KestrelCast::relay_plan(id, &shreds, few, 12, 5).unwrap();
    assert_eq!(plan.relays.len(), 3);
    for relay in &plan.relays {
        assert_eq!(plan.assignments.get(relay).unwrap().len(), shreds.len());
    }
}

#[test]
fn full_shred_queue_does_not_block_transaction_queue() {
    let (transaction_sender, mut transaction_receiver) = mpsc::channel(1);
    let (shred_sender, _shred_receiver) = mpsc::channel(1);
    let (ban_sender, _ban_receiver) = mpsc::channel(1);
    let (repair_sender, _repair_receiver) = mpsc::channel(1);
    let handle = NetworkHandle {
        transaction_sender,
        shred_sender,
        repair_sender,
        ban_sender,
        transaction_max_bytes: 1024,
        shred_max_bytes: 1024,
    };
    let shred = Shred {
        block_id: Hash256::digest(b"block"),
        index: 0,
        data_shards: 1,
        parity_shards: 1,
        original_len: 1,
        payload: vec![1],
    };
    let peer = libp2p::PeerId::random().to_bytes();
    handle.try_send_shred(peer.clone(), shred.clone()).unwrap();
    assert!(matches!(
        handle.try_send_shred(peer, shred),
        Err(GossipError::ShredQueueUnavailable)
    ));
    handle.try_publish_transaction(vec![7]).unwrap();
    assert_eq!(transaction_receiver.try_recv().unwrap(), vec![7]);
}

#[test]
fn full_transaction_queue_does_not_block_shred_queue() {
    let (transaction_sender, _transaction_receiver) = mpsc::channel(1);
    let (shred_sender, mut shred_receiver) = mpsc::channel(1);
    let (ban_sender, _ban_receiver) = mpsc::channel(1);
    let (repair_sender, _repair_receiver) = mpsc::channel(1);
    let handle = NetworkHandle {
        transaction_sender,
        shred_sender,
        repair_sender,
        ban_sender,
        transaction_max_bytes: 1024,
        shred_max_bytes: 1024,
    };
    handle.try_publish_transaction(vec![1]).unwrap();
    assert!(matches!(
        handle.try_publish_transaction(vec![2]),
        Err(GossipError::TransactionQueueUnavailable)
    ));
    let peer = libp2p::PeerId::random().to_bytes();
    let shred = Shred {
        block_id: Hash256::digest(b"other block"),
        index: 0,
        data_shards: 1,
        parity_shards: 1,
        original_len: 1,
        payload: vec![9],
    };
    handle.try_send_shred(peer.clone(), shred.clone()).unwrap();
    assert_eq!(
        shred_receiver.try_recv().unwrap(),
        OutboundShred {
            peer,
            shred,
            relay_requested: false
        }
    );
}

#[test]
fn oversized_messages_never_reach_a_queue() {
    let (mut handle, mut transactions, mut shreds, mut repairs, mut bans) = handle_with_room();
    handle.transaction_max_bytes = 3;
    handle.shred_max_bytes = 3;
    assert_eq!(
        handle.try_publish_transaction(vec![0; 4]),
        Err(GossipError::TransactionTooLarge)
    );
    let shred = Shred {
        block_id: Hash256::digest(b"large"),
        index: 0,
        data_shards: 1,
        parity_shards: 1,
        original_len: 4,
        payload: vec![0; 4],
    };
    assert_eq!(
        handle.try_send_relay_shred(vec![1], shred.clone()),
        Err(GossipError::ShredTooLarge)
    );
    assert!(transactions.try_recv().is_err());
    assert!(shreds.try_recv().is_err());
    handle.shred_max_bytes = 4;
    handle.try_send_relay_shred(vec![1], shred).unwrap();
    assert!(shreds.try_recv().unwrap().relay_requested);
    handle.try_request_payload(vec![2], 9).unwrap();
    assert_eq!(
        repairs.try_recv().unwrap(),
        OutboundRepair {
            peer: vec![2],
            height: 9
        }
    );
    handle.ban_peer(vec![3]).unwrap();
    assert_eq!(bans.try_recv().unwrap(), vec![3]);
    drop(bans);
    assert_eq!(handle.ban_peer(vec![3]), Err(GossipError::BanQueueUnavailable));
}

#[test]
fn drops_are_deterministic_and_extremes_are_absolute() {
    let mut dropped = 0;
    for index in 0_u32..1_000 {
        let seed = vec![b"tx".to_vec(), index.to_be_bytes().to_vec()];
        assert!(!deterministic_drop(0, &seed));
        assert!(deterministic_drop(10_000, &seed));
        assert_eq!(
            deterministic_drop(5_000, &seed),
            deterministic_drop(5_000, &seed)
        );
        if deterministic_drop(5_000, &seed) {
            dropped += 1;
        }
    }
    assert!((300..700).contains(&dropped));
    let mut bytes = [0_u8; 32];
    bytes[0] = 1;
    bytes[1] = 2;
    assert_eq!(sample_of_digest(&Hash256::from_bytes(bytes)), 258);
    assert_eq!(sample_of_digest(&Hash256::from_bytes([255; 32])), 5_535);
}

#[test]
fn the_node_does_not_dial_itself() {
    let peers: Vec<ConfiguredPeer> = (1_u8..=3)
        .map(|seed| ConfiguredPeer {
            peer_id: vec![seed],
            address: format!("/ip4/127.0.0.1/tcp/{}", 9_000 + u16::from(seed)),
        })
        .collect();
    assert_eq!(peers_to_dial(&peers, &[2]), vec![0, 2]);
    assert_eq!(peers_to_dial(&peers, &[9]), vec![0, 1, 2]);
    let config = GossipConfig::default();
    assert_eq!(config.faults, NetworkFaults::default());
    assert_eq!(config.heartbeat_interval_ms, 25);
}

fn settings(faults: NetworkFaults) -> RunConfig {
    RunConfig {
        shred_max_bytes: 16,
        faults,
    }
}

fn shred_of(payload: Vec<u8>) -> Shred {
    Shred {
        block_id: Hash256::digest(&payload),
        index: 0,
        data_shards: 1,
        parity_shards: 1,
        original_len: payload.len() as u64,
        payload,
    }
}

#[test]
fn queued_messages_leave_after_the_configured_delay() {
    let config = settings(NetworkFaults {
        outbound_delay_ms: 40,
        ..NetworkFaults::default()
    });
    let published = config.react(
        b"local",
        NetworkEvent::TransactionQueued { bytes: vec![1, 2] },
    );
    assert!(matches!(
        published,
        NetworkAction::Publish { delay_ms: 40, bytes } if bytes == vec![1, 2]
    ));
    let sent = config.react(
        b"local",
        NetworkEvent::ShredQueued {
            peer: vec![9],
            shred: shred_of(vec![3]),
            relay_requested: true,
            elapsed_ms: 0,
        },
    );
    assert!(matches!(
        sent,
        NetworkAction::Send {
            delay_ms: 40,
            peer,
            request: ShredRequest::Deliver { shred, relay_requested: true },
        } if peer == vec![9] && shred.payload == vec![3]
    ));
    let repair = config.react(
        b"local",
        NetworkEvent::RepairQueued {
            peer: vec![9],
            height: 7,
        },
    );
    assert!(matches!(
        repair,
        NetworkAction::Send {
            delay_ms: 0,
            request: ShredRequest::RepairPayload { height: 7 },
            ..
        }
    ));
}

#[test]
fn one_silenced_path_leaves_the_other_alone() {
    let silent_gossip = settings(NetworkFaults {
        transaction_drop_basis_points: 10_000,
        ..NetworkFaults::default()
    });
    let silent_shreds = settings(NetworkFaults {
        shred_drop_basis_points: 10_000,
        ..NetworkFaults::default()
    });
    let transaction = || NetworkEvent::TransactionQueued { bytes: vec![1] };
    let shred = || NetworkEvent::ShredQueued {
        peer: vec![9],
        shred: shred_of(vec![3]),
        relay_requested: false,
        elapsed_ms: 5,
    };
    assert!(matches!(silent_gossip.react(b"a", transaction()), NetworkAction::Continue));
    assert!(matches!(silent_gossip.react(b"a", shred()), NetworkAction::Send { .. }));
    assert!(matches!(silent_shreds.react(b"a", transaction()), NetworkAction::Publish { .. }));
    assert!(matches!(silent_shreds.react(b"a", shred()), NetworkAction::Continue));
}

#[test]
fn a_shred_outage_ends() {
    let config = settings(NetworkFaults {
        shred_outage_ms: 100,
        ..NetworkFaults::default()
    });
    let shred = |elapsed_ms| NetworkEvent::ShredQueued {
        peer: vec![9],
        shred: shred_of(vec![3]),
        relay_requested: false,
        elapsed_ms,
    };
    assert!(matches!(config.react(b"a", shred(99)), NetworkAction::Continue));
    assert!(matches!(config.react(b"a", shred(100)), NetworkAction::Send { .. }));
}

#[test]
fn received_messages_are_handed_up_with_their_source() {
    let config = settings(NetworkFaults::default());
    let authored = config.react(
        b"a",
        NetworkEvent::TransactionReceived {
            author: Some(vec![1]),
            propagated_by: vec![2],
            bytes: vec![5],
        },
    );
    assert!(matches!(
        authored,
        NetworkAction::HandUpTransaction { transaction }
            if transaction.source == Some(vec![1]) && transaction.bytes == vec![5]
    ));
    let anonymous = config.react(
        b"a",
        NetworkEvent::TransactionReceived {
            author: None,
            propagated_by: vec![2],
            bytes: vec![5],
        },
    );
    assert!(matches!(
        anonymous,
        NetworkAction::HandUpTransaction { transaction } if transaction.source == Some(vec![2])
    ));
    let deliver = |payload| NetworkEvent::RequestReceived {
        peer: vec![4],
        request: ShredRequest::Deliver {
            shred: shred_of(payload),
            relay_requested: true,
        },
    };
    assert!(matches!(
        config.react(b"a", deliver(vec![0; 16])),
        NetworkAction::HandUpShred { shred } if shred.source == vec![4] && shred.relay_requested
    ));
    assert!(matches!(config.react(b"a", deliver(vec![0; 17])), NetworkAction::Acknowledge));
    let repair = NetworkEvent::RequestReceived {
        peer: vec![4],
        request: ShredRequest::RepairPayload { height: 3 },
    };
    assert!(matches!(
        config.react(b"a", repair),
        NetworkAction::HandUpRepair { height: 3, .. }
    ));
    let ban = NetworkEvent::BanQueued { peer: vec![8] };
    assert!(matches!(
        config.react(b"a", ban),
        NetworkAction::Block { peer } if peer == vec![8]
    ));
    assert!(matches!(
        config.react(b"a", NetworkEvent::Discovered { peers: vec![vec![1]] }),
        NetworkAction::AddExplicitPeers { peers } if peers == vec![vec![1]]
    ));
    assert!(matches!(
        config.react(b"a", NetworkEvent::Expired { peers: vec![vec![1]] }),
        NetworkAction::RemoveExplicitPeers { peers } if peers == vec![vec![1]]
    ));
    assert!(matches!(config.react(b"a", NetworkEvent::Other), NetworkAction::Continue));
    assert!(matches!(config.react(b"a", NetworkEvent::Closed), NetworkAction::Stop));
}

#[test]
fn a_ban_is_queued_where_its_queue_takes_it() {
    assert_eq!(ban_queueing(true), Ok(()));
    assert_eq!(ban_queueing(false), Err(GossipError::BanQueueUnavailable));
    let (handle, _transactions, _shreds, mut repairs, mut bans) = handle_with_room();
    assert_eq!(handle.ban_peer(vec![7]), Ok(()));
    assert_eq!(bans.try_recv().unwrap(), vec![7]);
    assert_eq!(handle.try_request_payload(vec![8], 9), Ok(()));
    let request = repairs.try_recv().unwrap();
    assert_eq!((request.peer, request.height), (vec![8], 9));
}
