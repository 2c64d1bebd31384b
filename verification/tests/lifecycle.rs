//! Finalized payloads from submission over execution to commit and restart.

use std::collections::BTreeMap;
use std::sync::Arc;

use kestrel::consensus::{
    CertificateKind, FinalizedOrder, Proposal, Validator, ValidatorSet, Vote, VoteCollector,
    VotePhase,
};
use kestrel::crypto::{Bls12381Scheme, Ed25519Scheme, SignatureScheme};
use kestrel::execution::transactions::native_result;
use kestrel::execution::{
    AccessMode, DeclaredObjectRef, ExecutableTransaction, MoveOperation, OrderedCommit,
    StateAccesses, NATIVE_OPERATION_COMPUTE_COST,
};
use kestrel::network::KestrelCastConfig;
use kestrel::node::lifecycle::{
    block_key, checkpoint_key, pending_key, BlockLifecycle, CommitPlan, CompletedBlock,
    DurableCheckpoint, LifecycleError, PayloadDecoding, PendingBlock, SignedExecutionPayload,
    TransactionValidator,
};
use kestrel::node::payload::{signed_transaction_id, PropagatedBlock};
use kestrel::ordered::{OrderedMap, OrderedSet};
use kestrel::types::{Address, Hash256, Object, Owner, Transaction};

/// What the payload bytes of a test transaction hold.
type Fields = ([u8; 32], [u8; 32], u64, u8, Option<(u128, u128)>);

/// Objects by identifier: version and data.
type Store = BTreeMap<Hash256, (u64, Vec<u8>)>;

struct Chain {
    genesis_hash: Hash256,
    validators: ValidatorSet,
    keys: BTreeMap<Hash256, Vec<u8>>,
}

fn chain() -> Chain {
    let scheme = Bls12381Scheme;
    let mut keys = BTreeMap::new();
    let validators = (1_u8..=4)
        .map(|index| {
            let key = vec![index; 32];
            let id = Hash256::digest(&[index]);
            keys.insert(id, key.clone());
            Validator {
                id,
                stake: 25,
                public_key: scheme.public_key(&key).unwrap(),
                proof_of_possession: scheme.proof_of_possession(&key).unwrap(),
            }
        })
        .collect();
    Chain {
        genesis_hash: Hash256::digest(b"kestrel-lifecycle-test"),
        validators: ValidatorSet::new(validators, &scheme).unwrap(),
        keys,
    }
}

fn object(seed: u8, owner: Address) -> Object {
    Object {
        id: Hash256::digest(&[seed]),
        owner: Owner::Single(owner),
        type_tag: "lifecycle::Object".to_owned(),
        version: 0,
        data: vec![seed],
        rent_balance: 100,
    }
}

fn executable(sender: Address, id: Hash256, version: u64, data: u8) -> ExecutableTransaction {
    ExecutableTransaction {
        operation: MoveOperation::MutateObject {
            sender,
            id,
            expected_version: version,
            replacement: Object {
                id,
                owner: Owner::Single(sender),
                type_tag: "lifecycle::Object".to_owned(),
                version,
                data: vec![data],
                rent_balance: 100,
            },
        },
        object_references: vec![DeclaredObjectRef {
            id,
            owner: Owner::Single(sender),
            access: AccessMode::Write,
        }],
        compute_limit: 1_000,
    }
}

fn decoding(transaction: &Transaction) -> PayloadDecoding {
    let fields: Result<Fields, _> = bcs::from_bytes(&transaction.payload);
    match fields {
        Err(error) => PayloadDecoding {
            signed: None,
            bare: Err(error.to_string()),
        },
        Ok((sender, id, version, data, bid)) => {
            let sender = Address::from_bytes(sender);
            let id = Hash256::from_bytes(id);
            let run = executable(sender, id, version, data);
            match bid {
                None => PayloadDecoding {
                    signed: None,
                    bare: Ok(run),
                },
                Some((maximum, priority)) => PayloadDecoding {
                    signed: Some(SignedExecutionPayload::new(run, maximum, priority, Vec::new())),
                    bare: Err("not an executable alone".to_owned()),
                },
            }
        }
    }
}

fn decodings(payload: &PropagatedBlock) -> Vec<PayloadDecoding> {
    payload.transactions.iter().map(decoding).collect()
}

fn signed(
    key: &[u8],
    nonce: u64,
    object: &Object,
    version: u64,
    data: u8,
    bid: Option<(u128, u128)>,
) -> Transaction {
    let public_key = Ed25519Scheme.public_key(key).unwrap();
    let sender = Ed25519Scheme.address(&public_key).unwrap();
    let fields: Fields = (sender.bytes, object.id.bytes, version, data, bid);
    let mut transaction = Transaction {
        sender,
        nonce,
        payload: bcs::to_bytes(&fields).unwrap(),
        scheme_id: 1,
        public_key,
        signature: Vec::new(),
    };
    transaction.signature = Ed25519Scheme.sign(key, &transaction.signing_message()).unwrap();
    transaction
}

fn owner_of(key: &[u8]) -> Address {
    Ed25519Scheme.address(&Ed25519Scheme.public_key(key).unwrap()).unwrap()
}

fn finalized_order(chain: &Chain, payload: &PropagatedBlock) -> FinalizedOrder {
    let scheme = Arc::new(Bls12381Scheme);
    let transaction_ids = payload.transaction_ids().unwrap();
    let proposal = Proposal::new(
        payload.height,
        0,
        payload.parent_id,
        chain.validators.leader(payload.height, 0).id,
        transaction_ids.clone(),
        payload.fee_commitment(),
        None,
    );
    let mut collector = VoteCollector::new(
        &chain.validators,
        Arc::clone(&scheme),
        CertificateKind::Fast,
        payload.height,
        0,
        proposal.block_id,
    );
    let mut certificate = None;
    for validator in chain.validators.validators() {
        let vote = Vote::sign(
            validator.id,
            &chain.keys[&validator.id],
            payload.height,
            0,
            proposal.block_id,
            VotePhase::Order,
            &*scheme,
        )
        .unwrap();
        certificate = collector.add_vote(vote).unwrap().or(certificate);
    }
    FinalizedOrder {
        height: payload.height,
        block_id: proposal.block_id,
        transaction_ids,
        fee_commitment: proposal.fee_commitment,
        certificate: certificate.unwrap(),
    }
}

fn open(chain: &Chain, checkpoint: DurableCheckpoint) -> BlockLifecycle<Bls12381Scheme> {
    BlockLifecycle::open(
        chain.genesis_hash,
        chain.validators.clone(),
        Arc::new(Bls12381Scheme),
        TransactionValidator::from_genesis(vec![1, 2]).unwrap(),
        checkpoint,
    )
    .unwrap()
}

fn at_genesis(chain: &Chain, balances: &[(Address, u128)]) -> DurableCheckpoint {
    let mut fee_balances = OrderedMap::new();
    for (address, balance) in balances {
        fee_balances.insert(*address, *balance);
    }
    DurableCheckpoint::at_genesis(chain.genesis_hash, fee_balances)
}

fn root_of(store: &Store) -> Hash256 {
    Hash256::digest(&bcs::to_bytes(
        &store
            .iter()
            .map(|(id, (version, data))| (id.bytes, *version, data.clone()))
            .collect::<Vec<_>>(),
    )
    .unwrap())
}

/// Executes a pending block on a store.
fn execute(store: &mut Store, pending: &PendingBlock) -> CompletedBlock {
    let mut commit = OrderedCommit::new(0);
    for transaction in &pending.transactions {
        if let MoveOperation::MutateObject {
            id,
            expected_version,
            replacement,
            ..
        } = &transaction.executable.operation
        {
            let stored = store.get_mut(id).unwrap();
            assert_eq!(stored.0, *expected_version);
            *stored = (expected_version + 1, replacement.data.clone());
            let touched = StateAccesses {
                reads: OrderedSet::from_keys(&[*id]),
                writes: OrderedSet::from_keys(&[*id]),
            };
            commit.executed_in_order(touched, Ok(native_result())).unwrap();
        }
    }
    let root = root_of(store);
    CompletedBlock {
        height: pending.order.height,
        consensus_block_id: pending.order.block_id,
        result: Ok(commit.finish(root)),
        snapshot_root: Some(root),
    }
}

/// Submits, executes and commits one payload.
fn commit_payload(
    lifecycle: &mut BlockLifecycle<Bls12381Scheme>,
    store: &mut Store,
    order: FinalizedOrder,
    payload: &PropagatedBlock,
) -> CommitPlan {
    let pending = lifecycle
        .submit_payload(order, payload, decodings(payload))
        .unwrap();
    let completed = execute(store, &pending);
    lifecycle.record_submission(pending);
    let plan = lifecycle.poll_commit(&completed).unwrap();
    lifecycle.confirm_commit(&plan);
    plan
}

#[test]
fn reconstructed_signed_block_executes_commits_and_restores_after_restart() {
    let account_key = [99_u8; 32];
    let owner = owner_of(&account_key);
    let first = object(1, owner);
    let second = object(2, owner);
    let chain = chain();
    let mut store = Store::new();
    store.insert(first.id, (0, first.data.clone()));
    store.insert(second.id, (0, second.data.clone()));

    let first_payload = PropagatedBlock {
        height: 1,
        parent_id: chain.genesis_hash,
        transactions: vec![
            signed(&account_key, 0, &first, 0, 11, None),
            signed(&account_key, 1, &second, 0, 12, None),
        ],
        base_fees: vec![0, 0],
    };
    let first_order = finalized_order(&chain, &first_payload);
    let shreds = first_payload.shreds(KestrelCastConfig::default()).unwrap();
    let subset = shreds.into_iter().step_by(2).take(10).collect::<Vec<_>>();

    let mut lifecycle = open(&chain, at_genesis(&chain, &[]));
    let invalid_payload = PropagatedBlock {
        height: 1,
        parent_id: chain.genesis_hash,
        transactions: vec![signed(&account_key, 7, &first, 0, 99, None)],
        base_fees: vec![0],
    };
    let invalid_order = finalized_order(&chain, &invalid_payload);
    assert!(matches!(
        lifecycle.submit_payload(invalid_order, &invalid_payload, decodings(&invalid_payload)),
        Err(LifecycleError::NonceMismatch {
            expected: 0,
            received: 7
        })
    ));
    assert_eq!(lifecycle.committed_height(), 0);
    let rebuilt = PropagatedBlock::from_shreds(&subset).unwrap();
    assert_eq!(rebuilt, first_payload);
    let plan = commit_payload(&mut lifecycle, &mut store, first_order, &rebuilt);
    assert_eq!(lifecycle.committed_height(), 1);
    assert_eq!(store[&first.id].1, vec![11]);
    assert_eq!(store[&second.id].1, vec![12]);
    assert_eq!(plan.record.payload_id, first_payload.payload_id().unwrap());

    let first_record = plan.record;
    let mut lifecycle = open(&chain, plan.checkpoint);
    assert_eq!(lifecycle.committed_height(), 1);
    assert_eq!(lifecycle.committed_block(), first_record.consensus_block_id);
    assert_eq!(root_of(&store), first_record.state_root);

    let second_payload = PropagatedBlock {
        height: 2,
        parent_id: first_record.consensus_block_id,
        transactions: vec![signed(&account_key, 2, &first, 1, 21, None)],
        base_fees: vec![0],
    };
    let second_order = finalized_order(&chain, &second_payload);
    let plan = commit_payload(&mut lifecycle, &mut store, second_order, &second_payload);
    assert_eq!(plan.record.height, 2);
    assert_eq!(plan.checkpoint.finalized_height, 2);
    assert_eq!(store[&first.id].1, vec![21]);
}

#[test]
fn finalized_block_submitted_before_a_crash_still_commits_after_restart() {
    let account_key = [7_u8; 32];
    let first = object(1, owner_of(&account_key));
    let chain = chain();
    let mut store = Store::new();
    store.insert(first.id, (0, first.data.clone()));
    let payload = PropagatedBlock {
        height: 1,
        parent_id: chain.genesis_hash,
        transactions: vec![signed(&account_key, 0, &first, 0, 42, None)],
        base_fees: vec![0],
    };
    let order = finalized_order(&chain, &payload);
    let submitted = open(&chain, at_genesis(&chain, &[]))
        .submit_payload(order, &payload, decodings(&payload))
        .unwrap();

    // The first process ends here; only the stored pending block is left.
    let mut lifecycle = open(&chain, at_genesis(&chain, &[]));
    assert_eq!(lifecycle.committed_height(), 0);
    lifecycle.check_replay(&submitted).unwrap();
    let completed = execute(&mut store, &submitted);
    lifecycle.record_submission(submitted);
    let plan = lifecycle.poll_commit(&completed).unwrap();
    lifecycle.confirm_commit(&plan);
    assert_eq!(plan.record.height, 1);
    assert_eq!(lifecycle.committed_height(), 1);
    assert_eq!(store[&first.id].1, vec![42]);
    let sender = owner_of(&account_key);
    assert_eq!(lifecycle.admission_nonces().get(&sender), Some(&1));
}

#[test]
fn committed_transaction_fee_is_debited_from_payer_and_credited_to_the_leader() {
    let account_key = [11_u8; 32];
    let owner = owner_of(&account_key);
    let first = object(1, owner);
    let chain = chain();
    let leader = chain.validators.leader(1, 0);
    let leader_address = Bls12381Scheme.address(&leader.public_key).unwrap();
    let mut store = Store::new();
    store.insert(first.id, (0, first.data.clone()));

    // priority fee 2 + leader-declared base fee 3 = unit price 5; native
    // object primitives always charge exactly `NATIVE_OPERATION_COMPUTE_COST`.
    let payload = PropagatedBlock {
        height: 1,
        parent_id: chain.genesis_hash,
        transactions: vec![signed(&account_key, 0, &first, 0, 42, Some((10, 2)))],
        base_fees: vec![3],
    };
    let order = finalized_order(&chain, &payload);
    let mut lifecycle = open(&chain, at_genesis(&chain, &[(owner, 10_000)]));
    let plan = commit_payload(&mut lifecycle, &mut store, order, &payload);

    let expected_charge = 5_u128 * u128::from(NATIVE_OPERATION_COMPUTE_COST);
    assert_eq!(lifecycle.fee_balance(owner), 10_000 - expected_charge);
    assert_eq!(lifecycle.fee_balance(leader_address), expected_charge);
    let restored = open(&chain, plan.checkpoint);
    assert_eq!(restored.fee_balance(owner), 10_000 - expected_charge);
}

#[test]
fn base_fee_that_does_not_match_the_certified_commitment_is_rejected() {
    let account_key = [12_u8; 32];
    let owner = owner_of(&account_key);
    let first = object(1, owner);
    let chain = chain();
    let payload = PropagatedBlock {
        height: 1,
        parent_id: chain.genesis_hash,
        transactions: vec![signed(&account_key, 0, &first, 0, 42, Some((10, 2)))],
        base_fees: vec![3],
    };
    // Certify against the real base fee, then propagate a payload claiming a
    // different one for the same certified block.
    let order = finalized_order(&chain, &payload);
    // 1 (instead of the certified 3) still clears the signed fee cap of 10
    // (1 + priority 2 = 3), so this exercises the commitment mismatch itself
    // rather than tripping the separate fee-cap check first.
    let tampered_payload = PropagatedBlock {
        base_fees: vec![1],
        ..payload
    };
    let lifecycle = open(&chain, at_genesis(&chain, &[(owner, 10_000)]));
    assert!(matches!(
        lifecycle.submit_payload(order, &tampered_payload, decodings(&tampered_payload)),
        Err(LifecycleError::OrderMismatch)
    ));
}

#[test]
fn payload_submissions_are_refused_for_each_reason() {
    let account_key = [13_u8; 32];
    let owner = owner_of(&account_key);
    let first = object(1, owner);
    let chain = chain();
    let lifecycle = open(&chain, at_genesis(&chain, &[(owner, 10_000)]));
    let payload = |nonce: u64, bid: Option<(u128, u128)>, base_fees: Vec<u128>| PropagatedBlock {
        height: 1,
        parent_id: chain.genesis_hash,
        transactions: vec![signed(&account_key, nonce, &first, 0, 1, bid)],
        base_fees,
    };
    let submit = |order: FinalizedOrder, block: &PropagatedBlock| {
        lifecycle.submit_payload(order, block, decodings(block)).err()
    };
    let block = payload(0, Some((10, 2)), vec![9]);
    let order = finalized_order(&chain, &block);
    assert_eq!(submit(order, &block), Some(LifecycleError::FeeCapExceeded));
    let block = payload(0, Some((1, 2)), vec![0]);
    let order = finalized_order(&chain, &block);
    assert_eq!(submit(order, &block), Some(LifecycleError::InvalidFeeBid));
    let block = payload(0, Some((10, 2)), vec![]);
    let order = finalized_order(&chain, &block);
    assert_eq!(submit(order, &block), Some(LifecycleError::FeeCountMismatch));
    let mut block = payload(0, None, vec![0]);
    block.transactions[0].signature[0] ^= 1;
    let order = finalized_order(&chain, &block);
    assert!(matches!(submit(order, &block), Some(LifecycleError::Crypto(_))));
    let block = payload(0, None, vec![0]);
    let mut order = finalized_order(&chain, &block);
    order.certificate.kind = CertificateKind::Prepare;
    assert_eq!(submit(order, &block), Some(LifecycleError::NonFinalCertificate));
    let mut order = finalized_order(&chain, &block);
    order.certificate.aggregate_signature[0] ^= 1;
    assert!(matches!(submit(order, &block), Some(LifecycleError::Consensus(_))));
    let mut orphan = payload(0, None, vec![0]);
    orphan.parent_id = Hash256::digest(b"elsewhere");
    let order = finalized_order(&chain, &orphan);
    assert_eq!(submit(order, &orphan), Some(LifecycleError::OrderMismatch));
}

#[test]
fn commits_are_refused_for_each_reason() {
    let account_key = [14_u8; 32];
    let first = object(1, owner_of(&account_key));
    let chain = chain();
    let mut store = Store::new();
    store.insert(first.id, (0, first.data.clone()));
    let payload = PropagatedBlock {
        height: 1,
        parent_id: chain.genesis_hash,
        transactions: vec![signed(&account_key, 0, &first, 0, 1, None)],
        base_fees: vec![0],
    };
    let order = finalized_order(&chain, &payload);
    let mut lifecycle = open(&chain, at_genesis(&chain, &[]));
    let pending = lifecycle.submit_payload(order, &payload, decodings(&payload)).unwrap();
    let mut completed = execute(&mut store, &pending);
    assert_eq!(
        lifecycle.poll_commit(&completed).err(),
        Some(LifecycleError::CommitOrderMismatch)
    );
    lifecycle.record_submission(pending);
    let root = completed.snapshot_root.take();
    assert_eq!(
        lifecycle.poll_commit(&completed).err(),
        Some(LifecycleError::MissingStateSnapshot)
    );
    completed.snapshot_root = Some(Hash256::digest(b"another state"));
    assert_eq!(
        lifecycle.poll_commit(&completed).err(),
        Some(LifecycleError::CommitRootMismatch)
    );
    completed.snapshot_root = root;
    assert!(lifecycle.poll_commit(&completed).is_ok());
    completed.result = Err("out of memory".to_owned());
    assert_eq!(
        lifecycle.poll_commit(&completed).err(),
        Some(LifecycleError::ExecutionFailed("out of memory".to_owned()))
    );
    let mut foreign = at_genesis(&chain, &[]);
    foreign.genesis_hash = Hash256::digest(b"another chain");
    let reopened = BlockLifecycle::open(
        chain.genesis_hash,
        chain.validators.clone(),
        Arc::new(Bls12381Scheme),
        TransactionValidator::from_genesis(vec![1, 2]).unwrap(),
        foreign,
    );
    assert_eq!(reopened.err(), Some(LifecycleError::CheckpointGenesisMismatch));
    assert!(TransactionValidator::from_genesis(vec![1, 9]).is_err());
}

#[test]
fn stored_keys_and_identifiers_are_canonical() {
    let mut key = b"application/block/v1/".to_vec();
    key.extend_from_slice(&5_u64.to_be_bytes());
    assert_eq!(block_key(5), key);
    let mut key = b"application/pending/v1/".to_vec();
    key.extend_from_slice(&5_u64.to_be_bytes());
    assert_eq!(pending_key(5), key);
    assert_ne!(checkpoint_key(), block_key(0));
    let transaction = signed(&[15; 32], 0, &object(1, owner_of(&[15; 32])), 0, 1, None);
    let mut message = b"kestrel/transaction/id/v1".to_vec();
    message.extend_from_slice(
        &bcs::to_bytes(&(
            transaction.sender.bytes,
            transaction.nonce,
            &transaction.payload,
            transaction.scheme_id,
            &transaction.public_key,
            &transaction.signature,
        ))
        .unwrap(),
    );
    assert_eq!(
        signed_transaction_id(&transaction).unwrap(),
        Hash256::digest(&message)
    );
}

#[test]
fn a_commit_that_was_not_written_can_be_planned_again() {
    let account_key = [21_u8; 32];
    let owner = owner_of(&account_key);
    let first = object(1, owner);
    let chain = chain();
    let mut store = Store::new();
    store.insert(first.id, (0, first.data.clone()));
    let payload = PropagatedBlock {
        height: 1,
        parent_id: chain.genesis_hash,
        transactions: vec![signed(&account_key, 0, &first, 0, 42, Some((10, 2)))],
        base_fees: vec![3],
    };
    let order = finalized_order(&chain, &payload);
    let mut lifecycle = open(&chain, at_genesis(&chain, &[(owner, 10_000)]));
    let pending = lifecycle.submit_payload(order, &payload, decodings(&payload)).unwrap();
    let completed = execute(&mut store, &pending);
    lifecycle.record_submission(pending);
    let unwritten = lifecycle.poll_commit(&completed).unwrap();
    assert_eq!(lifecycle.fee_balance(owner), 10_000);
    let plan = lifecycle.poll_commit(&completed).unwrap();
    assert_eq!(plan.checkpoint.fee_balances, unwritten.checkpoint.fee_balances);
    lifecycle.confirm_commit(&plan);
    let expected_charge = 5_u128 * u128::from(NATIVE_OPERATION_COMPUTE_COST);
    assert_eq!(lifecycle.fee_balance(owner), 10_000 - expected_charge);
}

#[test]
fn reopening_on_stored_records_restores_height_and_nonces() {
    let account_key = [22_u8; 32];
    let owner = owner_of(&account_key);
    let first = object(1, owner);
    let chain = chain();
    let mut store = Store::new();
    store.insert(first.id, (0, first.data.clone()));
    let block = |height: u64, parent_id: Hash256| PropagatedBlock {
        height,
        parent_id,
        transactions: vec![signed(&account_key, height - 1, &first, height - 1, 1, None)],
        base_fees: vec![0],
    };
    let mut lifecycle = open(&chain, at_genesis(&chain, &[]));
    let payload = block(1, chain.genesis_hash);
    let order = finalized_order(&chain, &payload);
    let plan = commit_payload(&mut lifecycle, &mut store, order, &payload);
    let payload = block(2, lifecycle.committed_block());
    let order = finalized_order(&chain, &payload);
    let parent = order.block_id;
    let submitted = lifecycle.submit_payload(order, &payload, decodings(&payload)).unwrap();

    // The checkpoint and the pending record are all that is kept.
    let mut reopened = open(&chain, plan.checkpoint);
    reopened.check_replay(&submitted).unwrap();
    reopened.record_submission(submitted);
    assert_eq!(reopened.committed_height(), 1);
    assert_eq!(reopened.committed_block(), lifecycle.committed_block());
    assert_eq!(reopened.admission_nonces().get(&owner), Some(&2));
    // The next block is taken up where the first process would have.
    let payload = block(3, parent);
    let order = finalized_order(&chain, &payload);
    assert!(reopened.submit_payload(order, &payload, decodings(&payload)).is_ok());
}
