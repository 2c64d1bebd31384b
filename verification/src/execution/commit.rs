//! The ordered commit of speculative results.

use vstd::prelude::*;

use crate::execution::scheduling::{
    conflicts, conflicts_with_committed_writes, ensure_declared, undeclared, AccessModel,
    StateAccesses,
};
use crate::execution::transactions::{
    ExecutableTransaction, ExecutionError, MoveHostError, OperationResult,
};
use crate::ordered::OrderedSet;
use crate::types::{Hash256, ObjectId};

verus! {

/// Scheduler path which produced a committed result.
#[derive(Clone, Copy, Debug, PartialEq, Eq, Structural)]
pub enum ExecutionPath {
    Sequential,
    StructuralFastPath,
    Optimistic,
    Reexecuted,
}

/// Block commitment and access metadata produced by one operation.
#[derive(Debug, PartialEq, Eq)]
pub struct ExecutionReceipt {
    pub transaction_index: usize,
    /// Final state root of the block containing this transaction.
    ///
    /// The canonical commitment is computed once after ordered commit; every
    /// receipt in the block therefore carries the same root.
    pub state_root: Hash256,
    pub event_count: usize,
    pub compute_used: u64,
    pub read_set: OrderedSet<ObjectId>,
    pub write_set: OrderedSet<ObjectId>,
    pub path: ExecutionPath,
    pub attempts: usize,
}

/// The value of a receipt, or of one that awaits the state root of its block.
pub struct ReceiptModel {
    pub transaction_index: usize,
    pub result: OperationResult,
    pub accesses: AccessModel,
    pub path: ExecutionPath,
    pub attempts: usize,
}

impl View for ExecutionReceipt {
    type V = ReceiptModel;

    open spec fn view(&self) -> ReceiptModel {
        ReceiptModel {
            transaction_index: self.transaction_index,
            result: OperationResult {
                event_count: self.event_count,
                compute_used: self.compute_used,
            },
            accesses: AccessModel { reads: self.read_set@, writes: self.write_set@ },
            path: self.path,
            attempts: self.attempts,
        }
    }
}

/// A receipt that awaits the state root of its block.
#[derive(Debug)]
pub struct PendingReceipt {
    pub transaction_index: usize,
    pub result: OperationResult,
    pub accesses: StateAccesses,
    pub path: ExecutionPath,
    pub attempts: usize,
}

impl View for PendingReceipt {
    type V = ReceiptModel;

    open spec fn view(&self) -> ReceiptModel {
        ReceiptModel {
            transaction_index: self.transaction_index,
            result: self.result,
            accesses: self.accesses@,
            path: self.path,
            attempts: self.attempts,
        }
    }
}

/// The values of pending receipts.
pub open spec fn pending_models(pending: Seq<PendingReceipt>) -> Seq<ReceiptModel> {
    pending.map_values(|receipt: PendingReceipt| receipt@)
}

/// The values of receipts.
pub open spec fn receipt_models(receipts: Seq<ExecutionReceipt>) -> Seq<ReceiptModel> {
    receipts.map_values(|receipt: ExecutionReceipt| receipt@)
}

/// Scheduler counters for a completed block.
#[derive(Clone, Copy, Debug, PartialEq, Eq, Structural)]
pub struct SchedulerStats {
    pub speculative_executions: usize,
    pub structural_fast_path: usize,
    pub optimistic_commits: usize,
    pub aborts: usize,
    pub reexecutions: usize,
}

impl Default for SchedulerStats {
    fn default() -> (stats: Self)
        ensures
            stats == (SchedulerStats {
                speculative_executions: 0,
                structural_fast_path: 0,
                optimistic_commits: 0,
                aborts: 0,
                reexecutions: 0,
            }),
    {
        SchedulerStats {
            speculative_executions: 0,
            structural_fast_path: 0,
            optimistic_commits: 0,
            aborts: 0,
            reexecutions: 0,
        }
    }
}

/// Output of ordered block execution.
#[derive(Debug, PartialEq, Eq)]
pub struct BlockExecutionResult {
    pub receipts: Vec<ExecutionReceipt>,
    pub state_root: Hash256,
    pub scheduler: SchedulerStats,
}

/// What speculating one transaction gave. Its effects are kept by the store that
/// speculated.
#[derive(Debug)]
pub struct SpeculativeAttempt {
    pub accesses: StateAccesses,
    /// The result, `None` where the attempt failed.
    pub result: Option<OperationResult>,
    /// Whether the attempt ran on a lane.
    pub fast: bool,
}

/// What the store does with the next transaction.
#[derive(Clone, Copy, Debug, PartialEq, Eq, Structural)]
pub enum CommitAction {
    /// Apply the effects of the speculative attempt.
    Apply,
    /// Discard the attempt and run the transaction on the latest state.
    Reexecute,
}

/// The ordered commit of a block: transactions commit strictly in block order.
pub struct OrderedCommit {
    pending: Vec<PendingReceipt>,
    committed_writes: OrderedSet<ObjectId>,
    stats: SchedulerStats,
}

/// The value of an ordered commit.
#[verifier::ext_equal]
pub struct CommitModel {
    pub pending: Seq<ReceiptModel>,
    pub committed_writes: Set<ObjectId>,
    pub stats: SchedulerStats,
}

impl View for OrderedCommit {
    type V = CommitModel;

    closed spec fn view(&self) -> CommitModel {
        CommitModel {
            pending: pending_models(self.pending@),
            committed_writes: self.committed_writes@,
            stats: self.stats,
        }
    }
}

/// A commit that has room for the counters of `count` more transactions.
pub open spec fn has_room(commit: CommitModel, count: int) -> bool {
    &&& commit.pending.len() + count <= usize::MAX
    &&& commit.stats.structural_fast_path + count <= usize::MAX
    &&& commit.stats.optimistic_commits + count <= usize::MAX
    &&& commit.stats.aborts + count <= usize::MAX
    &&& commit.stats.reexecutions + count <= usize::MAX
}

/// Whether an attempt commits as it is: it succeeded, and it either ran on a lane
/// or saw nothing that an earlier transaction has changed.
pub open spec fn commits_as_is(
    commit: CommitModel,
    accesses: AccessModel,
    result: Option<OperationResult>,
    fast: bool,
) -> bool {
    result is Some && (fast || !conflicts(accesses, commit.committed_writes))
}

/// The commit after an attempt committed as it is.
pub open spec fn applied(
    commit: CommitModel,
    accesses: AccessModel,
    result: OperationResult,
    fast: bool,
) -> CommitModel {
    CommitModel {
        pending: commit.pending.push(
            ReceiptModel {
                transaction_index: commit.pending.len() as usize,
                result,
                accesses,
                path: if fast {
                    ExecutionPath::StructuralFastPath
                } else {
                    ExecutionPath::Optimistic
                },
                attempts: 1,
            },
        ),
        committed_writes: if fast {
            commit.committed_writes
        } else {
            commit.committed_writes.union(accesses.writes)
        },
        stats: if fast {
            SchedulerStats {
                structural_fast_path: (commit.stats.structural_fast_path + 1) as usize,
                ..commit.stats
            }
        } else {
            SchedulerStats {
                optimistic_commits: (commit.stats.optimistic_commits + 1) as usize,
                ..commit.stats
            }
        },
    }
}

/// The commit after an attempt was discarded.
pub open spec fn discarded(commit: CommitModel) -> CommitModel {
    CommitModel {
        stats: SchedulerStats {
            aborts: (commit.stats.aborts + 1) as usize,
            reexecutions: (commit.stats.reexecutions + 1) as usize,
            ..commit.stats
        },
        ..commit
    }
}

/// The commit after a transaction ran on the latest state.
pub open spec fn recorded(
    commit: CommitModel,
    accesses: AccessModel,
    result: OperationResult,
    path: ExecutionPath,
    attempts: usize,
) -> CommitModel {
    CommitModel {
        pending: commit.pending.push(
            ReceiptModel {
                transaction_index: commit.pending.len() as usize,
                result,
                accesses,
                path,
                attempts,
            },
        ),
        committed_writes: commit.committed_writes.union(accesses.writes),
        ..commit
    }
}

/// Whether an execution stayed within what its transaction declared.
pub open spec fn is_declared(transaction: ExecutableTransaction, accesses: AccessModel) -> bool {
    undeclared(transaction.object_references@, accesses) =~= Set::<ObjectId>::empty()
}

/// An error that reports the undeclared accesses of the transaction at `index`.
pub open spec fn reports_undeclared(
    error: ExecutionError,
    index: nat,
    transaction: ExecutableTransaction,
    accesses: AccessModel,
) -> bool {
    error matches ExecutionError::UndeclaredAccess { index: at, objects } && at == index
        && objects@ == undeclared(transaction.object_references@, accesses)
}

fn add_pending(pending: &mut Vec<PendingReceipt>, receipt: PendingReceipt)
    ensures
        pending_models(final(pending)@) == pending_models(old(pending)@).push(receipt@),
{
    pending.push(receipt);
    assert(pending_models(pending@) =~= pending_models(old(pending)@).push(receipt@));
}

/// Adds keys to a set.
fn extend(target: &mut OrderedSet<ObjectId>, source: &OrderedSet<ObjectId>)
    ensures
        final(target)@ == old(target)@.union(source@),
{
    let keys = source.keys();
    let ghost before = target@;
    let mut index: usize = 0;
    while index < keys.len()
        invariant
            index <= keys@.len(),
            forall|id: ObjectId| #[trigger]
                target@.contains(id) <==> before.contains(id) || keys@.take(index as int).contains(
                    id,
                ),
        decreases keys@.len() - index,
    {
        let ghost earlier = target@;
        target.insert(keys[index]);
        proof {
            let shorter = keys@.take(index as int);
            let next = keys@.take(index + 1);
            assert(next =~= shorter.push(keys@[index as int]));
            assert forall|id: ObjectId| #[trigger]
                target@.contains(id) <==> before.contains(id) || next.contains(id) by {
                assert(earlier.contains(id) <==> before.contains(id) || shorter.contains(id));
                if shorter.contains(id) {
                    let i = choose|i: int| 0 <= i < shorter.len() && shorter[i] == id;
                    assert(next[i] == id);
                }
                assert(next[index as int] == keys@[index as int]);
            }
        }
        index += 1;
    }
    assert(keys@.take(index as int) =~= keys@);
    assert(target@ =~= before.union(source@));
}

impl OrderedCommit {
    /// A commit before its first transaction, with the number of speculative
    /// attempts that were made.
    pub fn new(speculative_executions: usize) -> (commit: Self)
        ensures
            commit@ == (CommitModel {
                pending: Seq::empty(),
                committed_writes: Set::empty(),
                stats: SchedulerStats {
                    speculative_executions,
                    structural_fast_path: 0,
                    optimistic_commits: 0,
                    aborts: 0,
                    reexecutions: 0,
                },
            }),
    {
        let commit = OrderedCommit {
            pending: Vec::new(),
            committed_writes: OrderedSet::new(),
            stats: SchedulerStats {
                speculative_executions,
                structural_fast_path: 0,
                optimistic_commits: 0,
                aborts: 0,
                reexecutions: 0,
            },
        };
        assert(commit@.pending =~= Seq::empty());
        commit
    }

    /// The position of the next transaction to commit.
    pub fn position(&self) -> (position: usize)
        ensures
            position == self@.pending.len(),
    {
        self.pending.len()
    }

    /// Validates the attempt of the next transaction and commits or discards it.
    ///
    /// Structural lanes are disjoint from every optimistic transaction, and
    /// transactions for one owner execute serially inside their lane. They
    /// therefore need neither conflict-set scans nor insertion into the committed
    /// set of the optimistic validator.
    ///
    /// # Errors
    ///
    /// Rejects accesses that the transaction did not declare.
    pub fn offer(&mut self, transaction: &ExecutableTransaction, attempt: SpeculativeAttempt) -> (result:
        Result<CommitAction, ExecutionError>)
        requires
            has_room(old(self)@, 1),
        ensures
            match result {
                Ok(action) => is_declared(*transaction, attempt.accesses@) && (
                if commits_as_is(
                    old(self)@,
                    attempt.accesses@,
                    attempt.result,
                    attempt.fast,
                ) {
                    action == CommitAction::Apply && final(self)@ == applied(
                        old(self)@,
                        attempt.accesses@,
                        attempt.result.unwrap(),
                        attempt.fast,
                    )
                } else {
                    action == CommitAction::Reexecute && final(self)@ == discarded(old(self)@)
                }),
                Err(error) => !is_declared(*transaction, attempt.accesses@) && final(self)@ == old(
                    self,
                )@ && reports_undeclared(
                    error,
                    old(self)@.pending.len(),
                    *transaction,
                    attempt.accesses@,
                ),
            },
    {
        let index: usize = self.pending.len();
        match ensure_declared(index, transaction, &attempt.accesses) {
            Ok(()) => {},
            Err(error) => {
                return Err(error);
            },
        }
        let conflict = !attempt.fast && conflicts_with_committed_writes(
            &attempt.accesses,
            &self.committed_writes,
        );
        if let Some(result) = attempt.result {
            if attempt.fast || !conflict {
                let path = if attempt.fast {
                    self.stats.structural_fast_path = self.stats.structural_fast_path + 1;
                    ExecutionPath::StructuralFastPath
                } else {
                    extend(&mut self.committed_writes, &attempt.accesses.writes);
                    self.stats.optimistic_commits = self.stats.optimistic_commits + 1;
                    ExecutionPath::Optimistic
                };
                add_pending(
                    &mut self.pending,
                    PendingReceipt {
                        transaction_index: index,
                        result,
                        accesses: attempt.accesses,
                        path,
                        attempts: 1,
                    },
                );
                return Ok(CommitAction::Apply);
            }
        }
        self.stats.aborts = self.stats.aborts + 1;
        self.stats.reexecutions = self.stats.reexecutions + 1;
        Ok(CommitAction::Reexecute)
    }

    /// Records what running the next transaction on the latest state gave.
    ///
    /// # Errors
    ///
    /// Rejects accesses that the transaction did not declare, then reports the
    /// failure of the transaction itself.
    pub fn reexecuted(
        &mut self,
        transaction: &ExecutableTransaction,
        accesses: StateAccesses,
        outcome: Result<OperationResult, MoveHostError>,
    ) -> (result: Result<(), ExecutionError>)
        ensures
            match result {
                Ok(()) => is_declared(*transaction, accesses@) && (outcome matches Ok(done)
                    && final(self)@ == recorded(
                    old(self)@,
                    accesses@,
                    done,
                    ExecutionPath::Reexecuted,
                    2,
                )),
                Err(error) => final(self)@ == old(self)@ && if is_declared(*transaction, accesses@) {
                    outcome matches Err(source) && error == (ExecutionError::Transaction {
                        index: old(self)@.pending.len() as usize,
                        source,
                    })
                } else {
                    reports_undeclared(error, old(self)@.pending.len(), *transaction, accesses@)
                },
            },
    {
        let index: usize = self.pending.len();
        match ensure_declared(index, transaction, &accesses) {
            Ok(()) => {},
            Err(error) => {
                return Err(error);
            },
        }
        match outcome {
            Err(source) => Err(ExecutionError::Transaction { index, source }),
            Ok(done) => {
                extend(&mut self.committed_writes, &accesses.writes);
                add_pending(
                    &mut self.pending,
                    PendingReceipt {
                        transaction_index: index,
                        result: done,
                        accesses,
                        path: ExecutionPath::Reexecuted,
                        attempts: 2,
                    },
                );
                Ok(())
            },
        }
    }

    /// Records what running the next operation gave, where operations run strictly
    /// in list order and declare nothing.
    ///
    /// # Errors
    ///
    /// Returns the index and source error of a rejected operation.
    pub fn executed_in_order(
        &mut self,
        accesses: StateAccesses,
        outcome: Result<OperationResult, MoveHostError>,
    ) -> (result: Result<(), ExecutionError>)
        ensures
            match outcome {
                Ok(done) => result is Ok && final(self)@ == recorded(
                    old(self)@,
                    accesses@,
                    done,
                    ExecutionPath::Sequential,
                    1,
                ),
                Err(source) => final(self)@ == old(self)@ && result == Err::<(), ExecutionError>(
                    ExecutionError::Transaction {
                        index: old(self)@.pending.len() as usize,
                        source,
                    },
                ),
            },
    {
        let index: usize = self.pending.len();
        match outcome {
            Err(source) => Err(ExecutionError::Transaction { index, source }),
            Ok(done) => {
                extend(&mut self.committed_writes, &accesses.writes);
                add_pending(
                    &mut self.pending,
                    PendingReceipt {
                        transaction_index: index,
                        result: done,
                        accesses,
                        path: ExecutionPath::Sequential,
                        attempts: 1,
                    },
                );
                Ok(())
            },
        }
    }

    /// Completes the block with the state root that its commits led to.
    pub fn finish(self, state_root: Hash256) -> (block: BlockExecutionResult)
        ensures
            receipt_models(block.receipts@) == self@.pending,
            forall|i: int|
                0 <= i < block.receipts@.len() ==> (#[trigger] block.receipts@[i]).state_root
                    == state_root,
            block.state_root == state_root,
            block.scheduler == self@.stats,
    {
        BlockExecutionResult {
            receipts: finalize_receipts(self.pending, state_root),
            state_root,
            scheduler: self.stats,
        }
    }
}

/// Gives every receipt of a block its state root.
pub fn finalize_receipts(pending: Vec<PendingReceipt>, state_root: Hash256) -> (receipts: Vec<
    ExecutionReceipt,
>)
    ensures
        receipt_models(receipts@) == pending_models(pending@),
        forall|i: int|
            0 <= i < receipts@.len() ==> (#[trigger] receipts@[i]).state_root == state_root,
{
    let mut rest = pending;
    let ghost all = rest@;
    let mut reversed: Vec<ExecutionReceipt> = Vec::new();
    let ghost models = pending_models(all);
    assert(receipt_models(reversed@) =~= models.skip(rest@.len() as int).reverse());
    while rest.len() > 0
        invariant
            rest@.len() <= all.len(),
            rest@ == all.take(rest@.len() as int),
            models == pending_models(all),
            receipt_models(reversed@) == models.skip(rest@.len() as int).reverse(),
            forall|i: int|
                0 <= i < reversed@.len() ==> (#[trigger] reversed@[i]).state_root == state_root,
        decreases rest@.len(),
    {
        let ghost count = rest@.len() as int;
        if let Some(receipt) = rest.pop() {
            let ghost before = receipt_models(reversed@);
            let ghost value = receipt@;
            reversed.push(
                ExecutionReceipt {
                    transaction_index: receipt.transaction_index,
                    state_root,
                    event_count: receipt.result.event_count,
                    compute_used: receipt.result.compute_used,
                    read_set: receipt.accesses.reads,
                    write_set: receipt.accesses.writes,
                    path: receipt.path,
                    attempts: receipt.attempts,
                },
            );
            proof {
                assert(value == models[count - 1]);
                assert(receipt_models(reversed@) =~= before.push(value));
                assert(models.skip(count - 1).reverse() =~= before.push(models[count - 1]));
                assert(rest@ =~= all.take(count - 1));
            }
        }
    }
    let mut receipts: Vec<ExecutionReceipt> = Vec::new();
    let ghost turned = reversed@;
    assert(models.skip(0) =~= models);
    assert(receipt_models(receipts@) =~= models.take(0));
    while reversed.len() > 0
        invariant
            reversed@.len() + receipts@.len() == models.len(),
            reversed@.len() <= turned.len(),
            reversed@ == turned.take(reversed@.len() as int),
            receipt_models(turned) == models.reverse(),
            receipt_models(receipts@) == models.take(receipts@.len() as int),
            forall|i: int|
                0 <= i < turned.len() ==> (#[trigger] turned[i]).state_root == state_root,
            forall|i: int|
                0 <= i < receipts@.len() ==> (#[trigger] receipts@[i]).state_root == state_root,
        decreases reversed@.len(),
    {
        let ghost count = reversed@.len() as int;
        if let Some(receipt) = reversed.pop() {
            let ghost before = receipt_models(receipts@);
            proof {
                assert(receipt == turned[count - 1]);
                assert(receipt@ == receipt_models(turned)[count - 1]);
                assert(receipt@ == models[receipts@.len() as int]);
            }
            receipts.push(receipt);
            proof {
                assert(receipt_models(receipts@) =~= before.push(receipt@));
                assert(receipt_models(receipts@) =~= models.take(receipts@.len() as int));
                assert(reversed@ =~= turned.take(count - 1));
            }
        }
    }
    assert(models.take(receipts@.len() as int) =~= models);
    receipts
}

} // verus!
