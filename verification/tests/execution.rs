//! Speculative execution with ordered commit over a small object store.

use std::collections::BTreeMap;

use kestrel::execution::commit::CommitAction;
use kestrel::execution::commit::SchedulerStats;
use kestrel::execution::deferred::DeferredSettings;
use kestrel::execution::scheduling::{ensure_declared, minimum_grain};
use kestrel::execution::transactions::{
    charge_native_operation, native_result, plan_operation, OperationPlan, OperationResult,
};
use kestrel::execution::{
    build_tasks, classify_fast_path, conflicts_with_committed_writes, AccessMode,
    BlockExecutionResult, DeclaredObjectRef, DeferredExecutionError, DeferredExecutor,
    ExecutableTransaction, ExecutionError, ExecutionPath, MoveHostError, MoveOperation,
    OrderedCommit, OrderedExecutionBlock, SpeculationTask, SpeculativeAttempt, StateAccesses,
    NATIVE_OPERATION_COMPUTE_COST,
};
use kestrel::ordered::{OrderedMap, OrderedSet};
use kestrel::types::{Address, Hash256, Object, Owner};

/// What the store keeps of an object.
#[derive(Clone, Debug, PartialEq)]
struct Stored {
    owner: Owner,
    version: u64,
    data: Vec<u8>,
}

type Store = BTreeMap<Hash256, Stored>;

fn address(seed: u8) -> Address {
    Address::from_bytes([seed; 32])
}

fn object(slot: u8, owner: Owner, value: u8) -> Object {
    Object {
        id: Hash256::digest(&[slot]),
        owner,
        type_tag: "test::Counter".to_owned(),
        version: 0,
        data: vec![value],
        rent_balance: 1_000,
    }
}

fn copy_of(object: &Object) -> Object {
    Object {
        id: object.id,
        owner: object.owner,
        type_tag: object.type_tag.clone(),
        version: object.version,
        data: object.data.clone(),
        rent_balance: object.rent_balance,
    }
}

fn keep(store: &mut Store, object: &Object) {
    store.insert(
        object.id,
        Stored {
            owner: object.owner,
            version: object.version,
            data: object.data.clone(),
        },
    );
}

fn transaction(operation: MoveOperation, id: Hash256, owner: Owner) -> ExecutableTransaction {
    ExecutableTransaction {
        operation,
        object_references: vec![DeclaredObjectRef {
            id,
            owner,
            access: AccessMode::Write,
        }],
        compute_limit: 1_000_000,
    }
}

fn root_of(store: &Store) -> Hash256 {
    let mut bytes = Vec::new();
    for (id, stored) in store {
        bytes.extend_from_slice(id.as_bytes());
        bytes.extend_from_slice(&stored.version.to_be_bytes());
        bytes.extend_from_slice(&stored.data);
    }
    Hash256::digest(&bytes)
}

/// Runs one operation on a store and reports what it touched.
fn run(
    store: &mut Store,
    transaction: &ExecutableTransaction,
) -> (StateAccesses, Result<OperationResult, MoveHostError>) {
    let id = transaction.object_references[0].id;
    let touched = || OrderedSet::from_keys(&[id]);
    let accesses = StateAccesses {
        reads: touched(),
        writes: touched(),
    };
    let plan = match plan_operation(&transaction.operation, transaction.compute_limit) {
        Ok(plan) => plan,
        Err(error) => return (accesses, Err(error)),
    };
    let OperationPlan::Native { result } = plan else {
        return (accesses, Err(MoveHostError::Host("no virtual machine".to_owned())));
    };
    let failure = |reason: &str| Err(MoveHostError::Host(reason.to_owned()));
    let outcome = match &transaction.operation {
        MoveOperation::CreateObject { object, .. } => {
            if store.contains_key(&object.id) {
                failure("object exists")
            } else {
                keep(store, object);
                Ok(result)
            }
        }
        MoveOperation::MutateObject {
            id,
            expected_version,
            replacement,
            ..
        } => match store.get_mut(id) {
            Some(stored) if stored.version == *expected_version => {
                stored.version += 1;
                stored.data = replacement.data.clone();
                stored.owner = replacement.owner;
                Ok(result)
            }
            _ => failure("version mismatch"),
        },
        MoveOperation::DeleteObject {
            id,
            expected_version,
            ..
        } => match store.get(id) {
            Some(stored) if stored.version == *expected_version => {
                store.remove(id);
                Ok(result)
            }
            _ => failure("version mismatch"),
        },
        _ => failure("not supported"),
    };
    (accesses, outcome)
}

fn owners_of(store: &Store) -> OrderedMap<Hash256, Owner> {
    let mut owners = OrderedMap::new();
    for (id, stored) in store {
        owners.insert(*id, stored.owner);
    }
    owners
}

/// Speculates every transaction, then commits in block order.
fn run_in_parallel(
    store: &mut Store,
    transactions: &[ExecutableTransaction],
) -> Result<BlockExecutionResult, ExecutionError> {
    let lanes = classify_fast_path(&owners_of(store), transactions);
    let mut attempts: Vec<Option<(SpeculativeAttempt, Store)>> = Vec::new();
    for _ in transactions {
        attempts.push(None);
    }
    for task in build_tasks(&lanes).into_iter().rev() {
        match task {
            SpeculationTask::Optimistic(index) => {
                let mut copy = store.clone();
                let (accesses, outcome) = run(&mut copy, &transactions[index]);
                let attempt = SpeculativeAttempt {
                    accesses,
                    result: outcome.ok(),
                    fast: false,
                };
                attempts[index] = Some((attempt, copy));
            }
            SpeculationTask::FastLane(indexes) => {
                let mut lane = store.clone();
                for index in indexes {
                    let (accesses, outcome) = run(&mut lane, &transactions[index]);
                    let attempt = SpeculativeAttempt {
                        accesses,
                        result: outcome.ok(),
                        fast: true,
                    };
                    attempts[index] = Some((attempt, lane.clone()));
                }
            }
        }
    }
    let mut working = store.clone();
    let mut commit = OrderedCommit::new(transactions.len());
    for (index, slot) in attempts.into_iter().enumerate() {
        let (attempt, speculated) = slot.unwrap();
        let id = transactions[index].object_references[0].id;
        assert_eq!(commit.position(), index);
        match commit.offer(&transactions[index], attempt)? {
            CommitAction::Apply => match speculated.get(&id) {
                Some(stored) => {
                    working.insert(id, stored.clone());
                }
                None => {
                    working.remove(&id);
                }
            },
            CommitAction::Reexecute => {
                let (accesses, outcome) = run(&mut working, &transactions[index]);
                commit.reexecuted(&transactions[index], accesses, outcome)?;
            }
        }
    }
    let result = commit.finish(root_of(&working));
    *store = working;
    Ok(result)
}

fn run_in_order(
    store: &mut Store,
    transactions: &[ExecutableTransaction],
) -> Result<BlockExecutionResult, ExecutionError> {
    let mut working = store.clone();
    let mut commit = OrderedCommit::new(0);
    for transaction in transactions {
        let (accesses, outcome) = run(&mut working, transaction);
        commit.executed_in_order(accesses, outcome)?;
    }
    let result = commit.finish(root_of(&working));
    *store = working;
    Ok(result)
}

#[test]
fn speculative_completion_order_cannot_change_canonical_validation() {
    let key = Hash256::digest(&[7_u8]);
    for order in [[0_usize, 1], [1, 0]] {
        let mut slots: [Option<StateAccesses>; 2] = [None, None];
        for index in order {
            slots[index] = Some(StateAccesses {
                reads: OrderedSet::from_keys(&[key]),
                writes: OrderedSet::from_keys(&[key]),
            });
        }
        let mut committed_writes = OrderedSet::new();
        let mut conflicts = Vec::new();
        for slot in slots.iter() {
            let accesses = slot.as_ref().unwrap();
            conflicts.push(conflicts_with_committed_writes(accesses, &committed_writes));
            for written in accesses.writes.keys() {
                committed_writes.insert(written);
            }
        }
        assert_eq!(conflicts, vec![false, true]);
    }
}

#[test]
fn scheduler_reports_fast_path_and_conflict_reexecution() {
    let mut initial = Store::new();
    let fast_owner = address(1);
    let fast = object(1, Owner::Single(fast_owner), 0);
    let shared = object(2, Owner::Shared, 0);
    keep(&mut initial, &fast);
    keep(&mut initial, &shared);

    let mut fast_replacement = copy_of(&fast);
    fast_replacement.data[0] = 1;
    let mut shared_first = copy_of(&shared);
    shared_first.data[0] = 1;
    let mut shared_second = copy_of(&shared);
    shared_second.data[0] = 2;
    let transactions = vec![
        transaction(
            MoveOperation::MutateObject {
                sender: fast_owner,
                id: fast.id,
                expected_version: 0,
                replacement: fast_replacement,
            },
            fast.id,
            Owner::Single(fast_owner),
        ),
        transaction(
            MoveOperation::MutateObject {
                sender: address(9),
                id: shared.id,
                expected_version: 0,
                replacement: shared_first,
            },
            shared.id,
            Owner::Shared,
        ),
        transaction(
            MoveOperation::MutateObject {
                sender: address(9),
                id: shared.id,
                expected_version: 1,
                replacement: shared_second,
            },
            shared.id,
            Owner::Shared,
        ),
    ];
    let mut in_order = initial.clone();
    let sequential = run_in_order(&mut in_order, &transactions).unwrap();
    let result = run_in_parallel(&mut initial, &transactions).unwrap();
    assert_eq!(result.receipts[0].path, ExecutionPath::StructuralFastPath);
    assert_eq!(result.receipts[2].path, ExecutionPath::Reexecuted);
    assert_eq!(result.scheduler.structural_fast_path, 1);
    assert!(result.scheduler.aborts >= 1);
    assert_eq!(result.state_root, sequential.state_root);
    assert_eq!(initial, in_order);
    assert!(result.receipts.iter().all(|receipt| receipt.state_root == result.state_root));
    assert_eq!(sequential.receipts[1].path, ExecutionPath::Sequential);
    assert_eq!(sequential.receipts[1].attempts, 1);
    assert_eq!(result.receipts[2].attempts, 2);
}

#[test]
fn duplicate_absent_id_across_owner_lanes_matches_sequential_failure() {
    let initial = Store::new();
    let id = Hash256::digest(b"duplicate-fast-create");
    let first_owner = address(31);
    let second_owner = address(32);
    let first = Object {
        id,
        owner: Owner::Single(first_owner),
        type_tag: "test::First".to_owned(),
        version: 0,
        data: vec![1],
        rent_balance: 10,
    };
    let second = Object {
        id,
        owner: Owner::Single(second_owner),
        type_tag: "test::Second".to_owned(),
        version: 0,
        data: vec![2],
        rent_balance: 10,
    };
    let transactions = vec![
        transaction(
            MoveOperation::CreateObject {
                sender: first_owner,
                object: first,
            },
            id,
            Owner::Single(first_owner),
        ),
        transaction(
            MoveOperation::CreateObject {
                sender: second_owner,
                object: second,
            },
            id,
            Owner::Single(second_owner),
        ),
    ];
    let mut sequential_state = initial.clone();
    let sequential_error = run_in_order(&mut sequential_state, &transactions).unwrap_err();
    let mut parallel_state = initial;
    let parallel_error = run_in_parallel(&mut parallel_state, &transactions).unwrap_err();

    assert!(matches!(sequential_error, ExecutionError::Transaction { index: 1, .. }));
    assert!(matches!(parallel_error, ExecutionError::Transaction { index: 1, .. }));
    assert_eq!(root_of(&parallel_state), root_of(&sequential_state));
    assert_eq!(parallel_state.get(&id), sequential_state.get(&id));
}

#[test]
fn contended_blocks_match_sequential_execution() {
    for seed in 0_u64..40 {
        let mut initial = Store::new();
        let owners = [
            Owner::Shared,
            Owner::Single(address(11)),
            Owner::Single(address(12)),
            Owner::Shared,
        ];
        let mut versions: Vec<Option<u64>> = Vec::new();
        for (slot, owner) in owners.iter().enumerate() {
            keep(&mut initial, &object(slot as u8, *owner, 0));
            versions.push(Some(0));
        }
        let mut transactions = Vec::new();
        let mut mix = seed.wrapping_mul(0x9e37_79b9_7f4a_7c15) + 1;
        for _ in 0..24 {
            mix = mix.wrapping_mul(6_364_136_223_846_793_005).wrapping_add(1);
            let action = (mix >> 33) as u8;
            let slot = usize::from(action) % owners.len();
            let owner = owners[slot];
            let sender = match owner {
                Owner::Single(owner) => owner,
                Owner::Shared => address(90),
            };
            let changed = object(slot as u8, owner, action);
            let id = changed.id;
            let operation = match versions[slot] {
                Some(version) if action & 0x80 != 0 => {
                    versions[slot] = None;
                    MoveOperation::DeleteObject {
                        sender,
                        id,
                        expected_version: version,
                    }
                }
                Some(version) => {
                    versions[slot] = Some(version + 1);
                    MoveOperation::MutateObject {
                        sender,
                        id,
                        expected_version: version,
                        replacement: changed,
                    }
                }
                None => {
                    versions[slot] = Some(0);
                    MoveOperation::CreateObject {
                        sender,
                        object: changed,
                    }
                }
            };
            transactions.push(transaction(operation, id, owner));
        }
        let mut in_order = initial.clone();
        let sequential = run_in_order(&mut in_order, &transactions).unwrap();
        let mut in_parallel = initial;
        let parallel = run_in_parallel(&mut in_parallel, &transactions).unwrap();
        assert_eq!(parallel.state_root, sequential.state_root);
        assert_eq!(in_parallel, in_order);
    }
}

#[test]
fn a_lane_shares_no_object_with_a_transaction_outside_it() {
    let owner = address(1);
    let stranger = address(2);
    let first = object(1, Owner::Single(owner), 0);
    let second = object(2, Owner::Single(owner), 0);
    let mut store = Store::new();
    keep(&mut store, &first);
    keep(&mut store, &second);
    let touching = |sender: Address, objects: &[&Object]| ExecutableTransaction {
        operation: MoveOperation::DeleteObject {
            sender,
            id: objects[0].id,
            expected_version: 0,
        },
        object_references: objects
            .iter()
            .map(|object| DeclaredObjectRef {
                id: object.id,
                owner: object.owner,
                access: AccessMode::Write,
            })
            .collect(),
        compute_limit: 1_000,
    };
    let transactions = vec![
        touching(owner, &[&first]),
        touching(owner, &[&first, &second]),
        touching(stranger, &[&second]),
    ];
    let lanes = classify_fast_path(&owners_of(&store), &transactions);
    assert_eq!(lanes, vec![None, None, None]);
    let alone = classify_fast_path(&owners_of(&store), &transactions[..2]);
    assert_eq!(alone, vec![Some(owner), Some(owner)]);
    assert_eq!(build_tasks(&alone).len(), 1);
    assert_eq!(build_tasks(&lanes).len(), 3);
}

#[test]
fn undeclared_accesses_are_named() {
    let owner = Owner::Single(address(1));
    let declared = object(1, owner, 0);
    let transaction = transaction(
        MoveOperation::DeleteObject {
            sender: address(1),
            id: declared.id,
            expected_version: 0,
        },
        declared.id,
        owner,
    );
    let hidden = Hash256::digest(b"hidden");
    let accesses = StateAccesses {
        reads: OrderedSet::from_keys(&[declared.id, hidden]),
        writes: OrderedSet::new(),
    };
    assert_eq!(
        ensure_declared(3, &transaction, &accesses),
        Err(ExecutionError::UndeclaredAccess {
            index: 3,
            objects: OrderedSet::from_keys(&[hidden]),
        })
    );
}

#[test]
fn native_operations_cost_a_flat_charge() {
    assert_eq!(native_result().compute_used, NATIVE_OPERATION_COMPUTE_COST);
    assert_eq!(charge_native_operation(NATIVE_OPERATION_COMPUTE_COST), Ok(()));
    assert_eq!(
        charge_native_operation(NATIVE_OPERATION_COMPUTE_COST - 1),
        Err(MoveHostError::OutOfGas {
            gas_limit: NATIVE_OPERATION_COMPUTE_COST - 1
        })
    );
    let publish = MoveOperation::PublishModule {
        sender: address(4),
        module_bytes: vec![1],
    };
    assert_eq!(publish.sender(), address(4));
    assert_eq!(
        plan_operation(&publish, 1),
        Ok(OperationPlan::Metered { compute_limit: 1 })
    );
}

#[test]
fn epochs_and_grains_follow_their_settings() {
    let settings = DeferredSettings::new(4, 100).unwrap();
    assert_eq!(settings.worker_count(), 4);
    assert_eq!(settings.target_epoch(99), 0);
    assert_eq!(settings.target_epoch(100), 1);
    assert!(DeferredSettings::new(0, 100).is_err());
    assert_eq!(minimum_grain(0, 4), 1);
    assert_eq!(minimum_grain(1_000, 4), 63);
    assert_eq!(minimum_grain(16, 4), 1);
}

fn ordered_block(height: u64) -> OrderedExecutionBlock {
    OrderedExecutionBlock {
        height,
        consensus_block_id: Hash256::digest(&height.to_be_bytes()),
        transaction_ids: Vec::new(),
        transactions: Vec::new(),
    }
}

fn executed_block(root: &[u8]) -> BlockExecutionResult {
    BlockExecutionResult {
        receipts: Vec::new(),
        state_root: Hash256::digest(root),
        scheduler: SchedulerStats::default(),
    }
}

#[test]
fn a_stage_needs_workers_and_epochs() {
    let reason = |workers: usize, blocks: u64| match DeferredExecutor::new(workers, blocks).err() {
        Some(ExecutionError::SchedulerInitialization(reason)) => reason,
        _ => String::new(),
    };
    assert_eq!(reason(0, 0), "blocks per epoch must be greater than zero");
    assert_eq!(reason(0, 1), "worker count must be greater than zero");
    assert_eq!(DeferredExecutor::new(3, 1).unwrap().worker_count(), 3);
}

#[test]
fn the_stage_buffers_one_block_and_keeps_the_order() {
    let mut stage = DeferredExecutor::new(4, 100).unwrap();
    assert_eq!(stage.begin(), None);
    let mut unpaired = ordered_block(1);
    unpaired.transaction_ids.push(Hash256::default());
    assert_eq!(
        stage.submit(unpaired),
        Err(DeferredExecutionError::TransactionCountMismatch)
    );
    assert_eq!(stage.submit(ordered_block(199)), Ok(()));
    assert_eq!(
        stage.submit(ordered_block(200)),
        Err(DeferredExecutionError::LagLimitReached)
    );
    assert_eq!(stage.begin(), Some(1));
    assert_eq!(stage.begin(), None);
    // Ordering can advance one height without waiting for the execution.
    assert_eq!(stage.submit(ordered_block(200)), Ok(()));
    assert_eq!(
        stage.submit(ordered_block(201)),
        Err(DeferredExecutionError::LagLimitReached)
    );
    // Transactions come once state has reached the epoch.
    stage.executed(Ok(executed_block(b"early")), Ok(vec![0]));
    assert!(stage.try_result().unwrap().is_none());
    assert_eq!(stage.epoch_advanced(Ok(())), Some(Vec::new()));
    assert_eq!(stage.epoch_advanced(Ok(())), None);
    stage.executed(Ok(executed_block(b"first")), Ok(vec![1]));
    assert_eq!(stage.begin(), Some(2));
    assert_eq!(stage.epoch_advanced(Err("rent".to_owned())), None);
    let first = stage.try_result().unwrap().unwrap();
    let second = stage.try_result().unwrap().unwrap();
    assert_eq!((first.height, second.height), (199, 200));
    assert_eq!(first.consensus_block_id, Hash256::digest(&199_u64.to_be_bytes()));
    assert_eq!(first.result.unwrap().state_root, Hash256::digest(b"first"));
    assert_eq!(first.state_snapshot, Some(vec![1]));
    assert_eq!(second.consensus_block_id, Hash256::digest(&200_u64.to_be_bytes()));
    assert_eq!(
        second.result,
        Err(ExecutionError::EpochAdvance("rent".to_owned()))
    );
    assert_eq!(second.state_snapshot, None);
    assert!(stage.try_result().unwrap().is_none());
    stage.stop();
    assert_eq!(
        stage.submit(ordered_block(3)),
        Err(DeferredExecutionError::WorkerStopped)
    );
    assert_eq!(
        stage.try_result().err(),
        Some(DeferredExecutionError::WorkerStopped)
    );
}

#[test]
fn a_snapshot_comes_with_a_successful_execution_only() {
    let report = |executed: Result<BlockExecutionResult, ExecutionError>,
                  snapshot: Result<Vec<u8>, String>| {
        let mut stage = DeferredExecutor::new(1, 1).unwrap();
        stage.submit(ordered_block(7)).unwrap();
        assert_eq!(stage.begin(), Some(7));
        assert_eq!(stage.epoch_advanced(Ok(())), Some(Vec::new()));
        stage.executed(executed, snapshot);
        let done = stage.try_result().unwrap().unwrap();
        (done.result, done.state_snapshot)
    };
    let (result, snapshot) = report(Ok(executed_block(b"root")), Ok(vec![1, 2]));
    assert_eq!(result.unwrap().state_root, Hash256::digest(b"root"));
    assert_eq!(snapshot, Some(vec![1, 2]));
    let (result, snapshot) = report(Ok(executed_block(b"root")), Err("disk".to_owned()));
    assert_eq!(result, Err(ExecutionError::StateSnapshot("disk".to_owned())));
    assert_eq!(snapshot, None);
    let failed = ExecutionError::EpochAdvance("earlier".to_owned());
    let (result, snapshot) = report(Err(failed), Ok(vec![1]));
    assert_eq!(result, Err(ExecutionError::EpochAdvance("earlier".to_owned())));
    assert_eq!(snapshot, None);
}
