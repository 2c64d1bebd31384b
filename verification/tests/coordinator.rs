//! Rounds, frames and five validators that finalize together.

use std::sync::Arc;

use kestrel::consensus::{ConsensusError, Validator, ValidatorSet};
use kestrel::crypto::{Bls12381Scheme, SignatureScheme};
use kestrel::consensus::FinalizedOrder;
use kestrel::node::coordinator::{
    round_timeout_for_view, skip_safe_vote_refusal, CertificateEmission, CoordinatorConfig,
    CoordinatorError, CoordinatorFaults, SyntheticProposalSource,
};
use kestrel::node::driver::ConsensusCoordinator;
use kestrel::node::round::{Effect, Envelope, RoundState, WireMessage};
use kestrel::ordered::OrderedSet;
use kestrel::node::wire::{
    catchup_order_key, frame, frame_length, genesis_delay, next_catchup_height, pruned_height,
    safety_state_key, should_drop, CATCHUP_RETENTION, MAXIMUM_CATCHUP_BATCH,
};
use kestrel::types::Hash256;

#[test]
fn every_vote_refusal_is_skipped_never_fatal() {
    for error in [
        ConsensusError::ConflictingFirstRoundVote,
        ConsensusError::LocalDoubleVote,
        ConsensusError::LockedOnDifferentBlock,
        ConsensusError::ProposalRoundMismatch,
        ConsensusError::WrongLeader,
        ConsensusError::InvalidProposal,
    ] {
        assert!(
            skip_safe_vote_refusal(Err(error)).is_none(),
            "a vote refusal must be skipped, not crash the coordinator"
        );
    }
}

#[test]
fn only_an_empty_post_commit_height_waits_for_the_propagation_margin() {
    let margin = 15;
    let now = 1_000;

    let initial_height = RoundState::new(now);
    assert!(!initial_height.should_defer_empty_proposal(margin, true, now));

    let mut post_commit = RoundState::new_height(now);
    assert!(post_commit.should_defer_empty_proposal(margin, true, now));
    assert!(!post_commit.should_defer_empty_proposal(margin, false, now));

    post_commit.height_started = now - margin;
    assert!(!post_commit.should_defer_empty_proposal(margin, true, now));
}

#[test]
fn round_timeouts_double_up_to_a_bound() {
    assert_eq!(round_timeout_for_view(500, 0), 500);
    assert_eq!(round_timeout_for_view(500, 1), 1_000);
    assert_eq!(round_timeout_for_view(500, 4), 8_000);
    let bound = round_timeout_for_view(500, 1_000);
    assert_eq!(bound, round_timeout_for_view(500, u64::MAX));
    assert!(bound >= 8_000);
}

#[test]
fn frames_state_their_length() {
    let framed = frame(b"message").unwrap();
    assert_eq!(&framed[..4], &[0, 0, 0, 7]);
    assert_eq!(&framed[4..], b"message");
    assert_eq!(frame_length([0, 0, 0, 7], 7).unwrap(), 7);
    assert_eq!(frame_length([0, 0, 1, 0], 256).unwrap(), 256);
    assert_eq!(frame_length([0, 0, 0, 8], 7), Err(CoordinatorError::MessageTooLarge));
}

#[test]
fn orders_are_retained_by_height() {
    assert_eq!(safety_state_key(), b"consensus/replica-snapshot/v1".to_vec());
    let mut key = b"consensus/catchup/order/v1/".to_vec();
    key.extend_from_slice(&258_u64.to_be_bytes());
    assert_eq!(catchup_order_key(258), key);
    assert_eq!(pruned_height(CATCHUP_RETENTION - 1), None);
    assert_eq!(pruned_height(CATCHUP_RETENTION + 5), Some(5));
    assert_eq!(next_catchup_height(10, 0), Some(10));
    assert_eq!(next_catchup_height(10, MAXIMUM_CATCHUP_BATCH - 1), Some(73));
    assert_eq!(next_catchup_height(10, MAXIMUM_CATCHUP_BATCH), None);
    assert_eq!(genesis_delay(1_000, 1_500), Some(500));
    assert_eq!(genesis_delay(1_500, 1_500), None);
    let peer = Hash256::digest(b"peer");
    let node = Hash256::digest(b"node");
    assert!(!should_drop(0, node, peer, None));
    assert!(should_drop(10_000, node, peer, Some(&vec![1])));
}

/// A validator of an in-memory cluster.
struct Node {
    id: Hash256,
    coordinator: ConsensusCoordinator<Bls12381Scheme>,
    round: RoundState,
    orders: Vec<FinalizedOrder>,
    view_changes: u64,
    running: bool,
}

/// Validators that exchange messages with one tick of delay.
struct Cluster {
    nodes: Vec<Node>,
    in_flight: Vec<(Hash256, Envelope)>,
    now: u64,
}

const TICK_MS: u64 = 5;

fn copy_of(message: &WireMessage) -> WireMessage {
    match message {
        WireMessage::Proposal(signed) => WireMessage::Proposal(signed.clone()),
        WireMessage::Vote(vote) => WireMessage::Vote(vote.clone()),
        WireMessage::Certificate {
            certificate,
            transaction_ids,
            fee_commitment,
        } => WireMessage::Certificate {
            certificate: certificate.clone(),
            transaction_ids: transaction_ids.clone(),
            fee_commitment: *fee_commitment,
        },
        WireMessage::RequestOrders { from_height } => WireMessage::RequestOrders {
            from_height: *from_height,
        },
        WireMessage::Orders(orders) => WireMessage::Orders(orders.clone()),
    }
}

fn validators() -> (ValidatorSet, Vec<(Hash256, Vec<u8>)>) {
    let scheme = Bls12381Scheme;
    let mut keys = Vec::new();
    let list = (1_u8..=5)
        .map(|index| {
            let key = vec![index; 32];
            let id = Hash256::digest(&[index]);
            keys.push((id, key.clone()));
            Validator {
                id,
                stake: 20,
                public_key: scheme.public_key(&key).unwrap(),
                proof_of_possession: scheme.proof_of_possession(&key).unwrap(),
            }
        })
        .collect();
    (ValidatorSet::new(list, &scheme).unwrap(), keys)
}

impl Cluster {
    fn new(faults: impl Fn(Hash256) -> CoordinatorFaults) -> Self {
        let (set, keys) = validators();
        let nodes = keys
            .into_iter()
            .map(|(id, key)| Node {
                id,
                coordinator: ConsensusCoordinator::bind(
                    CoordinatorConfig::default(),
                    faults(id),
                    id,
                    key,
                    set.clone(),
                    Arc::new(Bls12381Scheme),
                    Hash256::digest(b"genesis"),
                    None,
                )
                .unwrap(),
                round: RoundState::new(0),
                orders: Vec::new(),
                view_changes: 0,
                running: true,
            })
            .collect();
        Cluster {
            nodes,
            in_flight: Vec::new(),
            now: 0,
        }
    }

    fn perform(&mut self, index: usize, effects: Vec<Effect>) {
        let sender = self.nodes[index].id;
        for effect in effects {
            match effect {
                Effect::Persist { .. } => {}
                Effect::Broadcast { message } => {
                    for peer in self.nodes[index].coordinator.recipients() {
                        self.post(index, peer, copy_of(&message));
                    }
                }
                Effect::Send { peer, message } => self.post(index, peer, message),
                Effect::Finalize { order, outcome } => {
                    assert_eq!(order.height, outcome.finalized_height);
                    self.nodes[index].orders.push(order);
                    self.nodes[index].view_changes += outcome.view_changes;
                }
                Effect::ServeOrders { peer, from_height } => {
                    let orders: Vec<FinalizedOrder> = self.nodes[index]
                        .orders
                        .iter()
                        .filter(|order| order.height >= from_height)
                        .take(MAXIMUM_CATCHUP_BATCH)
                        .cloned()
                        .collect();
                    if !orders.is_empty() {
                        let message = WireMessage::Orders(orders);
                        self.in_flight.push((peer, Envelope { sender, message }));
                    }
                }
            }
        }
    }

    fn post(&mut self, index: usize, peer: Hash256, message: WireMessage) {
        if self.nodes[index].coordinator.allows(peer, None) {
            let sender = self.nodes[index].id;
            self.in_flight.push((peer, Envelope { sender, message }));
        }
    }

    fn step(&mut self) {
        self.now += TICK_MS;
        let delivered = std::mem::take(&mut self.in_flight);
        for (peer, envelope) in delivered {
            let index = self.nodes.iter().position(|node| node.id == peer).unwrap();
            let now = self.now;
            let node = &mut self.nodes[index];
            if !node.running || node.coordinator.ignores(envelope.sender) {
                continue;
            }
            let mut effects = Vec::new();
            let result = node.coordinator.handle(envelope, &mut node.round, now, &mut effects);
            assert!(result.is_ok(), "a message was fatal: {result:?}");
            self.perform(index, effects);
        }
        for index in 0..self.nodes.len() {
            let now = self.now;
            let node = &mut self.nodes[index];
            if !node.running {
                continue;
            }
            let mut effects = Vec::new();
            let result = node.coordinator.on_tick(
                &mut node.round,
                now,
                &SyntheticProposalSource,
                &mut effects,
            );
            assert!(result.is_ok(), "a tick was fatal: {result:?}");
            self.perform(index, effects);
        }
    }

    fn run_until(&mut self, height: u64, watched: &[usize]) {
        for _ in 0..400 {
            if watched
                .iter()
                .all(|index| self.nodes[*index].coordinator.height() > height)
            {
                return;
            }
            self.step();
        }
        panic!("the validators did not finalize height {height}");
    }

    fn assert_agreement(&self, watched: &[usize]) {
        let first = &self.nodes[watched[0]].orders;
        for index in watched {
            let orders = &self.nodes[*index].orders;
            for (left, right) in first.iter().zip(orders) {
                assert_eq!(left.height, right.height);
                assert_eq!(left.block_id, right.block_id);
            }
            for (position, order) in orders.iter().enumerate() {
                assert_eq!(order.height, position as u64 + 1);
            }
        }
    }
}

fn leader_position(height: u64) -> usize {
    let (set, keys) = validators();
    let leader = set.leader(height, 0).id;
    keys.iter().position(|(id, _)| *id == leader).unwrap()
}

#[test]
fn five_validators_finalize_the_same_heights_on_the_fast_path() {
    let mut cluster = Cluster::new(|_| CoordinatorFaults::default());
    cluster.run_until(3, &[0, 1, 2, 3, 4]);
    cluster.assert_agreement(&[0, 1, 2, 3, 4]);
    for node in &cluster.nodes {
        assert_eq!(node.view_changes, 0);
    }
}

#[test]
fn a_leader_that_withholds_certificates_stops_nobody() {
    let withholding = leader_position(1);
    let (_, keys) = validators();
    let id = keys[withholding].0;
    let mut cluster = Cluster::new(|other| CoordinatorFaults {
        certificate_emission: if other == id {
            CertificateEmission::Withhold
        } else {
            CertificateEmission::Enabled
        },
        ..CoordinatorFaults::default()
    });
    cluster.run_until(1, &[0, 1, 2, 3, 4]);
    cluster.assert_agreement(&[0, 1, 2, 3, 4]);
    assert!(cluster.nodes.iter().all(|node| node.view_changes == 0));
}

#[test]
fn a_withheld_vote_forces_the_fallback_path() {
    let silent = (leader_position(1) + 1) % 5;
    let quiet = (leader_position(1) + 2) % 5;
    let (_, keys) = validators();
    let mutes = [keys[silent].0, keys[quiet].0];
    let mut cluster = Cluster::new(|id| CoordinatorFaults {
        withhold_votes: mutes.contains(&id),
        ..CoordinatorFaults::default()
    });
    cluster.run_until(1, &[0, 1, 2, 3, 4]);
    cluster.assert_agreement(&[0, 1, 2, 3, 4]);
    let kinds: Vec<_> = cluster.nodes.iter().map(|node| node.orders[0].certificate.kind).collect();
    assert!(kinds
        .iter()
        .all(|kind| *kind == kestrel::consensus::CertificateKind::Commit));
}

#[test]
fn a_stopped_leader_is_rotated_away_by_timeout() {
    let stopped = leader_position(1);
    let others: Vec<usize> = (0..5).filter(|index| *index != stopped).collect();
    let mut cluster = Cluster::new(|_| CoordinatorFaults::default());
    cluster.nodes[stopped].running = false;
    cluster.run_until(1, &others);
    cluster.assert_agreement(&others);
    assert!(others.iter().all(|index| cluster.nodes[*index].view_changes > 0));
}

#[test]
fn a_late_validator_catches_up() {
    let late = (leader_position(1) + 4) % 5;
    let others: Vec<usize> = (0..5).filter(|index| *index != late).collect();
    let mut cluster = Cluster::new(|_| CoordinatorFaults::default());
    cluster.nodes[late].running = false;
    cluster.run_until(2, &others);
    cluster.nodes[late].running = true;
    cluster.nodes[late].round = RoundState::new(cluster.now);
    cluster.run_until(4, &[0, 1, 2, 3, 4]);
    cluster.assert_agreement(&[0, 1, 2, 3, 4]);
}

#[test]
fn an_equivocating_leader_splits_nobody() {
    let (_, keys) = validators();
    let id = keys[leader_position(1)].0;
    let mut cluster = Cluster::new(|other| CoordinatorFaults {
        equivocate_when_leader: other == id,
        ..CoordinatorFaults::default()
    });
    let honest: Vec<usize> = (0..5).filter(|index| keys[*index].0 != id).collect();
    for _ in 0..60 {
        cluster.step();
    }
    cluster.assert_agreement(&honest);
}

#[test]
fn unusable_starts_are_refused_for_each_reason() {
    let (set, keys) = validators();
    let scheme = Bls12381Scheme;
    let start = |config: CoordinatorConfig, drop: u16, id: Hash256, key: &[u8]| {
        let faults = CoordinatorFaults {
            drop_basis_points: drop,
            blocked_peers: OrderedSet::new(),
            ..CoordinatorFaults::default()
        };
        ConsensusCoordinator::check_start(&config, &faults, id, key, &set, &scheme)
    };
    let good = CoordinatorConfig::default();
    assert_eq!(start(good, 0, keys[0].0, &keys[0].1), Ok(()));
    let hasty = CoordinatorConfig {
        round_timeout_ms: good.fast_path_wait_ms,
        ..good
    };
    assert_eq!(
        start(hasty, 0, keys[0].0, &keys[0].1),
        Err(CoordinatorError::InvalidConfiguration)
    );
    assert_eq!(
        start(good, 10_001, keys[0].0, &keys[0].1),
        Err(CoordinatorError::InvalidConfiguration)
    );
    assert_eq!(
        start(good, 0, Hash256::digest(b"stranger"), &keys[0].1),
        Err(CoordinatorError::UnknownLocalValidator)
    );
    assert_eq!(
        start(good, 0, keys[0].0, &keys[1].1),
        Err(CoordinatorError::PrivateKeyMismatch)
    );
    assert!(matches!(
        start(good, 0, keys[0].0, &[1]),
        Err(CoordinatorError::Crypto(_))
    ));
}

#[test]
fn a_coordinator_reports_where_it_stands() {
    let (set, keys) = validators();
    let (id, key) = keys[0].clone();
    let genesis = Hash256::digest(b"genesis");
    let coordinator = ConsensusCoordinator::bind(
        CoordinatorConfig {
            stop_after_height: Some(0),
            ..CoordinatorConfig::default()
        },
        CoordinatorFaults::default(),
        id,
        key,
        set,
        Arc::new(Bls12381Scheme),
        genesis,
        None,
    )
    .unwrap();
    assert_eq!(coordinator.height(), 1);
    assert_eq!(coordinator.current_view(), 0);
    assert!(coordinator.is_done());
    let outcome = coordinator.initial_outcome();
    assert_eq!(outcome.finalized_height, 0);
    assert_eq!(outcome.finalized_block, genesis);
    assert_eq!(outcome.finality_latency_ms, 0);
    assert_eq!(outcome.view_changes, 0);
    let cluster = Cluster::new(|_| CoordinatorFaults::default());
    assert!(!cluster.nodes[0].coordinator.is_done());
}
