//! Ordering, finality and view changes on concrete validator sets.

use std::collections::BTreeMap;
use std::sync::Arc;

use kestrel::consensus::{
    verify_certificate, verify_equivocation_evidence, CertificateKind, ConsensusError,
    EquivocationEvidence, EvidenceBook, Proposal, QuorumCertificate, Replica, SignedProposal,
    SlashingPolicy, Validator, ValidatorSet, Vote, VoteCollector, VotePhase,
};
use kestrel::crypto::{Bls12381Scheme, SignatureScheme};
use kestrel::types::Hash256;

struct Fixture {
    validators: ValidatorSet,
    scheme: Arc<Bls12381Scheme>,
    keys: BTreeMap<Hash256, Vec<u8>>,
    ids: Vec<Hash256>,
}

impl Fixture {
    fn new(stakes: &[u64]) -> Self {
        let scheme = Arc::new(Bls12381Scheme);
        let mut keys = BTreeMap::new();
        let mut ids = Vec::new();
        let validators = stakes
            .iter()
            .enumerate()
            .map(|(index, stake)| {
                let mut id_bytes = [0_u8; 32];
                id_bytes[31] = u8::try_from(index).unwrap();
                let id = Hash256::from_bytes(id_bytes);
                let key = vec![u8::try_from(index + 1).unwrap(); 32];
                keys.insert(id, key.clone());
                ids.push(id);
                Validator {
                    id,
                    stake: *stake,
                    public_key: scheme.public_key(&key).unwrap(),
                    proof_of_possession: scheme.proof_of_possession(&key).unwrap(),
                }
            })
            .collect();
        Self {
            validators: ValidatorSet::new(validators, &*scheme).unwrap(),
            scheme,
            keys,
            ids,
        }
    }

    fn vote(&self, index: usize, block: Hash256, phase: VotePhase) -> Vote {
        let id = self.ids[index];
        Vote::sign(id, &self.keys[&id], 7, 0, block, phase, &*self.scheme).unwrap()
    }

    fn collect(
        &self,
        kind: CertificateKind,
        block: Hash256,
        signers: &[usize],
    ) -> Option<QuorumCertificate> {
        let mut collector = VoteCollector::new(
            &self.validators,
            Arc::clone(&self.scheme),
            kind,
            7,
            0,
            block,
        );
        let phase = match kind {
            CertificateKind::Fast | CertificateKind::Prepare => VotePhase::Order,
            CertificateKind::Commit => VotePhase::Commit,
            CertificateKind::Timeout => VotePhase::Timeout,
        };
        let target = if phase == VotePhase::Timeout {
            Hash256::default()
        } else {
            block
        };
        let mut certificate = None;
        for signer in signers {
            certificate = collector
                .add_vote(self.vote(*signer, target, phase))
                .unwrap();
        }
        certificate
    }
}

fn validator_set(stakes: &[u64]) -> ValidatorSet {
    let bls = Bls12381Scheme;
    let validators = stakes
        .iter()
        .enumerate()
        .map(|(index, stake)| {
            let key = [u8::try_from(index + 1).unwrap(); 32];
            Validator {
                id: Hash256::digest(&index.to_be_bytes()),
                stake: *stake,
                public_key: bls.public_key(&key).unwrap(),
                proof_of_possession: bls.proof_of_possession(&key).unwrap(),
            }
        })
        .collect();
    ValidatorSet::new(validators, &bls).unwrap()
}

fn key_for(id: Hash256) -> Vec<u8> {
    (1_u8..=32)
        .find_map(|index| {
            let key = vec![index; 32];
            (Hash256::digest(&usize::from(index - 1).to_be_bytes()) == id).then_some(key)
        })
        .unwrap()
}

#[test]
fn thresholds_and_fault_model_are_exact() {
    let validators = validator_set(&[19, 21, 20, 20, 20]);
    assert_eq!(validators.fast_threshold(), 80);
    assert_eq!(validators.fallback_threshold(), 60);
    assert_eq!(validators.validate_fault_budget(19, 20), Ok(()));
    assert!(validators.validate_fault_budget(20, 0).is_err());
    assert!(validators.validate_fault_budget(0, 21).is_err());
}

#[test]
fn only_valid_double_votes_create_replay_protected_slashing_directives() {
    let scheme = Bls12381Scheme;
    let validators = validator_set(&[25, 25, 25, 25]);
    let validator = Hash256::digest(&0_usize.to_be_bytes());
    let private_key = [1_u8; 32];
    let first = Vote::sign(
        validator,
        &private_key,
        9,
        3,
        Hash256::digest(b"first"),
        VotePhase::Order,
        &scheme,
    )
    .unwrap();
    let second = Vote::sign(
        validator,
        &private_key,
        9,
        3,
        Hash256::digest(b"second"),
        VotePhase::Order,
        &scheme,
    )
    .unwrap();
    let evidence = EquivocationEvidence { first, second };
    verify_equivocation_evidence(&evidence, &validators, &scheme).unwrap();

    let mut book = EvidenceBook::default();
    let directive = book
        .record(
            &evidence,
            &validators,
            SlashingPolicy::new(5_000).unwrap(),
            &scheme,
        )
        .unwrap();
    assert_eq!(directive.validator, validator);
    assert_eq!(directive.slash_stake, 13);
    assert_eq!(
        book.record(
            &evidence,
            &validators,
            SlashingPolicy::new(5_000).unwrap(),
            &scheme,
        ),
        Err(ConsensusError::EvidenceAlreadyApplied)
    );

    let mut non_conflicting = evidence;
    non_conflicting.second.block_id = non_conflicting.first.block_id;
    assert_eq!(
        verify_equivocation_evidence(&non_conflicting, &validators, &scheme),
        Err(ConsensusError::InvalidEquivocationEvidence)
    );

    non_conflicting.second.block_id = Hash256::digest(b"third");
    non_conflicting.second.signature[0] ^= 1;
    assert!(matches!(
        verify_equivocation_evidence(&non_conflicting, &validators, &scheme),
        Err(ConsensusError::Crypto(_))
    ));
}

#[test]
fn signed_proposals_and_replica_snapshots_survive_transport_restart() {
    let scheme = Arc::new(Bls12381Scheme);
    let validators = validator_set(&[25, 25, 25, 25]);
    let leader = validators.leader(1, 0).id;
    let private_key = key_for(leader);
    let proposal = Proposal::new(
        1,
        0,
        Hash256::digest(b"genesis"),
        leader,
        vec![Hash256::digest(b"transaction")],
        Hash256::default(),
        None,
    );
    let signed = SignedProposal::sign(proposal.clone(), &private_key, &*scheme).unwrap();
    signed.verify(&validators, &*scheme).unwrap();

    let mut replica = Replica::new(
        leader,
        private_key.clone(),
        validators.clone(),
        Arc::clone(&scheme),
        1,
        proposal.parent_id,
    )
    .unwrap();
    let vote = replica.vote_for_proposal(&proposal).unwrap();
    let snapshot = replica.snapshot();
    let mut restored =
        Replica::restore(leader, private_key, validators, scheme, snapshot).unwrap();
    assert_eq!(restored.vote_for_proposal(&proposal).unwrap(), vote);
}

#[test]
fn fast_path_finalizes_at_eighty_percent_in_one_round() {
    let fixture = Fixture::new(&[20, 20, 20, 20, 20]);
    let block = Hash256::digest(b"fast");
    assert!(
        fixture
            .collect(CertificateKind::Fast, block, &[0, 1, 2])
            .is_none()
    );
    let certificate = fixture
        .collect(CertificateKind::Fast, block, &[0, 1, 2, 3])
        .unwrap();
    assert_eq!(certificate.signed_stake, 80);
    verify_certificate(&certificate, &fixture.validators, &*fixture.scheme).unwrap();
}

#[test]
fn fallback_requires_prepare_and_distinct_commit_rounds() {
    let fixture = Fixture::new(&[20, 20, 20, 20, 20]);
    let block = Hash256::digest(b"fallback");
    let prepare = fixture
        .collect(CertificateKind::Prepare, block, &[0, 1, 2])
        .unwrap();
    let commit = fixture
        .collect(CertificateKind::Commit, block, &[0, 1, 2])
        .unwrap();
    assert_eq!(prepare.signed_stake, 60);
    assert_eq!(commit.signed_stake, 60);
    assert_ne!(prepare.aggregate_signature, commit.aggregate_signature);
    verify_certificate(&prepare, &fixture.validators, &*fixture.scheme).unwrap();
    verify_certificate(&commit, &fixture.validators, &*fixture.scheme).unwrap();
}

#[test]
fn malformed_and_under_threshold_certificates_are_rejected() {
    let fixture = Fixture::new(&[20, 20, 20, 20, 20]);
    let block = Hash256::digest(b"certificate-validation");
    let valid = fixture
        .collect(CertificateKind::Prepare, block, &[0, 1, 2])
        .unwrap();

    let mut under_threshold = valid.clone();
    under_threshold.kind = CertificateKind::Fast;
    assert!(matches!(
        verify_certificate(
            &under_threshold,
            &fixture.validators,
            &*fixture.scheme
        ),
        Err(ConsensusError::InsufficientStake { .. })
    ));

    let mut wrong_stake = valid.clone();
    wrong_stake.signed_stake += 1;
    assert_eq!(
        verify_certificate(&wrong_stake, &fixture.validators, &*fixture.scheme),
        Err(ConsensusError::IncorrectSignedStake)
    );

    let mut duplicate = valid.clone();
    duplicate.signers.insert(1, duplicate.signers[0]);
    assert_eq!(
        verify_certificate(&duplicate, &fixture.validators, &*fixture.scheme),
        Err(ConsensusError::InvalidSignerSet)
    );

    let mut tampered = valid;
    tampered.aggregate_signature[0] ^= 1;
    assert!(verify_certificate(&tampered, &fixture.validators, &*fixture.scheme).is_err());
}

#[test]
fn prepared_lock_rejects_a_conflicting_proposal() {
    let fixture = Fixture::new(&[20, 20, 20, 20, 20]);
    let id = fixture.ids[4];
    let parent = Hash256::digest(b"parent");
    let mut replica = Replica::new(
        id,
        fixture.keys[&id].clone(),
        fixture.validators.clone(),
        Arc::clone(&fixture.scheme),
        7,
        parent,
    )
    .unwrap();
    let prepared_block = Hash256::digest(b"prepared");
    let prepare = fixture
        .collect(CertificateKind::Prepare, prepared_block, &[0, 1, 2])
        .unwrap();
    replica.vote_to_commit(&prepare).unwrap();

    let conflicting = Proposal::new(
        7,
        0,
        parent,
        replica.leader(),
        vec![Hash256::digest(b"conflict")],
        Hash256::default(),
        None,
    );
    assert_eq!(
        replica.vote_for_proposal(&conflicting),
        Err(ConsensusError::LockedOnDifferentBlock)
    );
}

#[test]
fn honest_replica_refuses_same_view_equivocation() {
    let fixture = Fixture::new(&[20, 20, 20, 20, 20]);
    let id = fixture.ids[0];
    let mut replica = Replica::new(
        id,
        fixture.keys[&id].clone(),
        fixture.validators.clone(),
        Arc::clone(&fixture.scheme),
        7,
        Hash256::digest(b"parent"),
    )
    .unwrap();
    let leader = replica.leader();
    let first = Proposal::new(
        7,
        0,
        Hash256::digest(b"parent"),
        leader,
        vec![Hash256::digest(b"first")],
        Hash256::default(),
        None,
    );
    let second = Proposal::new(
        7,
        0,
        Hash256::digest(b"parent"),
        leader,
        vec![Hash256::digest(b"second")],
        Hash256::default(),
        None,
    );
    replica.vote_for_proposal(&first).unwrap();
    assert_eq!(
        replica.vote_for_proposal(&second),
        Err(ConsensusError::LocalDoubleVote)
    );
}

#[test]
fn identified_same_view_attack_is_prevented_below_twenty_percent() {
    let fixture = Fixture::new(&[19, 21, 20, 20, 20]);
    fixture.validators.validate_fault_budget(19, 0).unwrap();
    let left = Hash256::digest(b"equivocated-left");
    let right = Hash256::digest(b"equivocated-right");

    // The 19% Byzantine validator votes for both blocks. Honest stake is
    // partitioned 41/40 and votes only once. One side reaches 60%; the other
    // reaches 59%, so two conflicting prepare certificates cannot exist.
    assert!(
        fixture
            .collect(CertificateKind::Prepare, left, &[0, 1, 2])
            .is_some()
    );
    assert!(
        fixture
            .collect(CertificateKind::Prepare, right, &[0, 3, 4])
            .is_none()
    );
}

#[test]
fn same_view_attack_exists_at_twenty_percent_and_is_out_of_model() {
    let fixture = Fixture::new(&[20, 20, 20, 20, 20]);
    assert_eq!(
        fixture.validators.validate_fault_budget(20, 0),
        Err(ConsensusError::ByzantineBudgetExceeded)
    );
    let left = Hash256::digest(b"boundary-left");
    let right = Hash256::digest(b"boundary-right");
    assert!(
        fixture
            .collect(CertificateKind::Prepare, left, &[0, 1, 2])
            .is_some()
    );
    assert!(
        fixture
            .collect(CertificateKind::Prepare, right, &[0, 3, 4])
            .is_some()
    );
}

#[test]
fn quorum_intersection_is_exhaustive_for_integer_stake_units() {
    for byzantine in 0_u128..20 {
        for left_honest in 0_u128..=(100 - byzantine) {
            let right_honest = 100 - byzantine - left_honest;
            assert!(
                byzantine + left_honest < 60 || byzantine + right_honest < 60,
                "two 60% quorums formed with {byzantine}% Byzantine stake"
            );
        }
    }
}

#[test]
fn sixty_percent_timeout_rotates_away_from_failed_leader() {
    let fixture = Fixture::new(&[20, 20, 20, 20, 20]);
    let id = fixture.ids[0];
    let mut replica = Replica::new(
        id,
        fixture.keys[&id].clone(),
        fixture.validators.clone(),
        Arc::clone(&fixture.scheme),
        7,
        Hash256::digest(b"parent"),
    )
    .unwrap();
    let old_leader = replica.leader();
    let timeout = fixture
        .collect(CertificateKind::Timeout, Hash256::default(), &[0, 1, 2])
        .unwrap();
    replica.advance_view(&timeout).unwrap();
    assert_eq!(replica.view(), 1);
    assert_ne!(replica.leader(), old_leader);
}

#[test]
fn fast_certificate_signers_cannot_abandon_the_view_and_finalize_a_conflict() {
    let fixture = Fixture::new(&[19, 21, 20, 20, 20]);
    fixture.validators.validate_fault_budget(19, 0).unwrap();
    let parent = Hash256::digest(b"fast-parent");
    let fast_block = Proposal::new(
        7,
        0,
        parent,
        fixture.validators.leader(7, 0).id,
        vec![Hash256::digest(b"fast-a")],
        Hash256::default(),
        None,
    );
    let mut replicas = fixture
        .ids
        .iter()
        .map(|id| {
            Replica::new(
                *id,
                fixture.keys[id].clone(),
                fixture.validators.clone(),
                Arc::clone(&fixture.scheme),
                7,
                parent,
            )
            .unwrap()
        })
        .collect::<Vec<_>>();

    let mut fast = VoteCollector::new(
        &fixture.validators,
        Arc::clone(&fixture.scheme),
        CertificateKind::Fast,
        7,
        0,
        fast_block.block_id,
    );
    let mut fast_certificate = None;
    for replica in replicas.iter_mut().take(4) {
        fast_certificate = fast
            .add_vote(replica.vote_for_proposal(&fast_block).unwrap())
            .unwrap();
    }
    let fast_certificate = fast_certificate.unwrap();
    replicas[1].finalize(&fast_certificate).unwrap();

    let mut timeout = VoteCollector::new(
        &fixture.validators,
        Arc::clone(&fixture.scheme),
        CertificateKind::Timeout,
        7,
        0,
        Hash256::default(),
    );
    let byzantine_timeout = fixture.vote(0, Hash256::default(), VotePhase::Timeout);
    assert!(timeout.add_vote(byzantine_timeout).unwrap().is_none());
    for replica in &mut replicas[2..4] {
        assert!(replica.local_timeout().unwrap().is_none());
    }
    let only_non_signer = replicas[4].local_timeout().unwrap().unwrap();
    assert!(timeout.add_vote(only_non_signer).unwrap().is_none());
}

#[test]
fn timeout_vote_prevents_a_later_order_vote_in_the_same_view() {
    let fixture = Fixture::new(&[19, 21, 20, 20, 20]);
    let id = fixture.ids[1];
    let parent = Hash256::digest(b"timeout-parent");
    let mut replica = Replica::new(
        id,
        fixture.keys[&id].clone(),
        fixture.validators.clone(),
        Arc::clone(&fixture.scheme),
        7,
        parent,
    )
    .unwrap();
    assert!(replica.local_timeout().unwrap().is_some());
    let proposal = Proposal::new(
        7,
        0,
        parent,
        replica.leader(),
        vec![Hash256::digest(b"late-proposal")],
        Hash256::default(),
        None,
    );
    assert_eq!(
        replica.vote_for_proposal(&proposal),
        Err(ConsensusError::ConflictingFirstRoundVote)
    );
}

#[test]
fn votes_on_another_block_or_from_a_stranger_are_refused() {
    let fixture = Fixture::new(&[20, 20, 20, 20, 20]);
    let block = Hash256::digest(b"collected");
    let mut collector = VoteCollector::new(
        &fixture.validators,
        Arc::clone(&fixture.scheme),
        CertificateKind::Prepare,
        7,
        0,
        block,
    );
    assert!(collector
        .add_vote(fixture.vote(0, Hash256::digest(b"other"), VotePhase::Order))
        .is_err());
    let mut stranger = fixture.vote(0, block, VotePhase::Order);
    stranger.validator = Hash256::digest(b"stranger");
    assert_eq!(
        collector.add_vote(stranger),
        Err(ConsensusError::UnknownValidator(Hash256::digest(b"stranger")))
    );
    let once = fixture.vote(1, block, VotePhase::Order);
    assert_eq!(collector.add_vote(once.clone()), Ok(None));
    assert_eq!(collector.add_vote(once), Ok(None));
}

#[test]
fn fee_commitments_tell_fee_lists_apart() {
    assert_eq!(
        kestrel::consensus::fee_commitment(&[]),
        kestrel::consensus::fee_commitment(&[])
    );
    assert_ne!(
        kestrel::consensus::fee_commitment(&[1, 2]),
        kestrel::consensus::fee_commitment(&[2, 1])
    );
    assert_ne!(
        kestrel::consensus::fee_commitment(&[]),
        kestrel::consensus::fee_commitment(&[0])
    );
}

#[test]
fn leaders_rotate_with_height_and_view() {
    let fixture = Fixture::new(&[20, 20, 20, 20, 20]);
    let leaders: Vec<Hash256> = (0..5).map(|view| fixture.validators.leader(7, view).id).collect();
    for (position, leader) in leaders.iter().enumerate() {
        assert_eq!(*leader, fixture.ids[(7 + position) % 5]);
        assert_eq!(*leader, fixture.validators.leader(7 + position as u64, 0).id);
    }
}

#[test]
fn invalid_validator_tables_are_refused() {
    let scheme = Bls12381Scheme;
    let entry = |seed: u8, stake: u64| {
        let key = [seed; 32];
        Validator {
            id: Hash256::digest(&[seed]),
            stake,
            public_key: scheme.public_key(&key).unwrap(),
            proof_of_possession: scheme.proof_of_possession(&key).unwrap(),
        }
    };
    assert_eq!(
        ValidatorSet::new(vec![entry(1, 1), entry(2, 1), entry(3, 1)], &scheme).err(),
        Some(ConsensusError::TooFewValidators)
    );
    let zero = ValidatorSet::new(
        vec![entry(1, 1), entry(2, 0), entry(3, 1), entry(4, 1)],
        &scheme,
    );
    assert_eq!(zero.err(), Some(ConsensusError::InvalidValidatorSet));
    let twice = ValidatorSet::new(
        vec![entry(1, 1), entry(1, 1), entry(3, 1), entry(4, 1)],
        &scheme,
    );
    assert_eq!(
        twice.err(),
        Some(ConsensusError::InvalidValidatorSet)
    );
    let mut foreign = entry(4, 1);
    foreign.proof_of_possession = scheme.proof_of_possession(&[9; 32]).unwrap();
    let unproved = ValidatorSet::new(vec![entry(1, 1), entry(2, 1), entry(3, 1), foreign], &scheme);
    assert!(unproved.is_err());
    assert!(SlashingPolicy::new(0).is_err());
    assert!(SlashingPolicy::new(10_001).is_err());
    assert!(SlashingPolicy::new(10_000).is_ok());
}

#[test]
fn an_accepted_vote_completes_the_certificate_at_the_threshold() {
    let fixture = Fixture::new(&[20, 20, 20, 20, 20]);
    let block = Hash256::digest(b"threshold");
    let mut collector = VoteCollector::new(
        &fixture.validators,
        Arc::clone(&fixture.scheme),
        CertificateKind::Prepare,
        7,
        0,
        block,
    );
    assert_eq!(
        collector.add_vote(fixture.vote(4, block, VotePhase::Order)),
        Ok(None)
    );
    assert_eq!(
        collector.add_vote(fixture.vote(1, block, VotePhase::Order)),
        Ok(None)
    );
    // A vote that is refused counts for nothing.
    let mut forged = fixture.vote(3, block, VotePhase::Order);
    forged.signature = fixture.vote(2, block, VotePhase::Order).signature;
    assert!(collector.add_vote(forged).is_err());
    let certificate = collector
        .add_vote(fixture.vote(0, block, VotePhase::Order))
        .unwrap()
        .unwrap();
    let mut signers = vec![fixture.ids[4], fixture.ids[1], fixture.ids[0]];
    signers.sort();
    assert_eq!(certificate.signers, signers);
    assert_eq!(certificate.signed_stake, 60);
    verify_certificate(&certificate, &fixture.validators, &*fixture.scheme).unwrap();
}

#[test]
fn views_rotate_the_leader_at_the_last_height() {
    let fixture = Fixture::new(&[20, 20, 20, 20, 20]);
    let leader = |view: u64| fixture.validators.leader(u64::MAX, view).id;
    assert_ne!(leader(0), leader(1));
    // Twice the largest height is a multiple of five.
    assert_eq!(leader(u64::MAX), fixture.ids[0]);
    assert_eq!(leader(1), fixture.ids[1]);
}
