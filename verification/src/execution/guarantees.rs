//! What parallel execution and deferred execution are for.

use vstd::prelude::*;

use crate::execution::commit::{
    applied, commits_as_is, discarded, is_declared, recorded, BlockExecutionResult, CommitModel,
    ExecutionPath, ReceiptModel,
};
use crate::execution::deferred::{
    after_begin, after_epoch, after_execution, after_poll, after_submission, awaits_execution,
    next_to_run, submission, DeferredExecutionError, DeferredModel, DeferredSettings,
    OrderedExecutionBlock,
};
use crate::execution::scheduling::{
    candidates, demoted, fast_lanes, is_contended, is_held_back, lane_owner, lane_owners,
    lanes_after, lemma_members, members_of, minimum_grain, tasks_of, undeclared, uses, AccessModel,
    TaskModel,
};
use crate::execution::transactions::{
    is_metered, native_charge, plan_operation, resulting_owner, sender_of, AccessMode,
    ExecutableTransaction, ExecutionError, MoveHostError, MoveOperation, OperationPlan,
    OperationResult,
};
use crate::ordered::{lemma_sorted_keys_of_finite, sorted_keys};
use crate::types::{Address, Epoch, ObjectId, Owner};

verus! {

/// A transaction may read what it declares and write what it declares for writing, and
/// nothing else.
pub proof fn law_access_is_declared(transaction: ExecutableTransaction, accesses: AccessModel)
    ensures
        ({
            let references = transaction.object_references@;
            is_declared(transaction, accesses) <==> {
                &&& forall|id: ObjectId| #[trigger]
                    accesses.reads.contains(id) ==> exists|i: int|
                        0 <= i < references.len() && (#[trigger] references[i]).id == id
                &&& forall|id: ObjectId| #[trigger]
                    accesses.writes.contains(id) ==> exists|i: int|
                        0 <= i < references.len() && (#[trigger] references[i]).id == id
                            && references[i].access == AccessMode::Write
            }
        }),
        forall|id: ObjectId| #[trigger]
            undeclared(transaction.object_references@, accesses).contains(id)
                ==> accesses.reads.contains(id) || accesses.writes.contains(id),
{
    let references = transaction.object_references@;
    let outside = undeclared(references, accesses);
    if is_declared(transaction, accesses) {
        assert forall|id: ObjectId| #[trigger] accesses.reads.contains(id) implies exists|i: int|
            0 <= i < references.len() && (#[trigger] references[i]).id == id by {
            assert(!outside.contains(id));
        }
        assert forall|id: ObjectId| #[trigger] accesses.writes.contains(id) implies exists|i: int|
            0 <= i < references.len() && (#[trigger] references[i]).id == id
                && references[i].access == AccessMode::Write by {
            assert(!outside.contains(id));
        }
    }
}

/// A speculative attempt that saw a value which an earlier transaction of the block has
/// replaced since is not committed; one that failed is not committed either; any other
/// one is.
pub proof fn law_stale_attempts_are_run_again(
    commit: CommitModel,
    earlier: AccessModel,
    done: OperationResult,
    later: AccessModel,
    result: Option<OperationResult>,
)
    ensures
        ({
            let after = applied(commit, earlier, done, false);
            commits_as_is(after, later, result, false) <==> {
                &&& result is Some
                &&& commits_as_is(commit, later, result, false)
                &&& forall|id: ObjectId| #[trigger]
                    earlier.writes.contains(id) ==> !later.reads.contains(id)
                        && !later.writes.contains(id)
            }
        }),
        commit.committed_writes == Set::<ObjectId>::empty() ==> (commits_as_is(
            commit,
            later,
            result,
            false,
        ) <==> result is Some),
        commits_as_is(commit, later, result, true) <==> result is Some,
{
    let after = applied(commit, earlier, done, false);
    if commits_as_is(after, later, result, false) {
        assert forall|id: ObjectId| #[trigger] earlier.writes.contains(id) implies
            !later.reads.contains(id) && !later.writes.contains(id) by {
            assert(after.committed_writes.contains(id));
        }
        assert forall|id: ObjectId| #[trigger] commit.committed_writes.contains(id) implies !(
        later.reads.contains(id) || later.writes.contains(id)) by {
            assert(after.committed_writes.contains(id));
        }
    }
}

/// The number of receipts of one path.
pub open spec fn on_path(receipts: Seq<ReceiptModel>, path: ExecutionPath) -> nat
    decreases receipts.len(),
{
    if receipts.len() == 0 {
        0
    } else {
        on_path(receipts.drop_last(), path) + if receipts.last().path == path {
            1nat
        } else {
            0nat
        }
    }
}

/// Whether the counters tell how the receipts of a block came about, and each receipt
/// where it stands and how often its transaction ran.
pub open spec fn tells_how(commit: CommitModel) -> bool {
    let receipts = commit.pending;
    &&& commit.stats.structural_fast_path == on_path(receipts, ExecutionPath::StructuralFastPath)
    &&& commit.stats.optimistic_commits == on_path(receipts, ExecutionPath::Optimistic)
    &&& commit.stats.reexecutions == on_path(receipts, ExecutionPath::Reexecuted)
    &&& commit.stats.aborts == commit.stats.reexecutions
    &&& forall|i: int|
        0 <= i < receipts.len() ==> {
            let receipt = #[trigger] receipts[i];
            &&& receipt.transaction_index == i
            &&& receipt.path == ExecutionPath::Reexecuted ==> receipt.attempts == 2
            &&& receipt.path != ExecutionPath::Reexecuted ==> receipt.attempts == 1
        }
}

/// Counters and receipts agree after every committed transaction: one that ran once is
/// counted under its path, and one that ran again as an abort and a reexecution. Its
/// receipt holds what that run returned and accessed.
pub proof fn law_statistics_match_receipts(
    commit: CommitModel,
    accesses: AccessModel,
    result: OperationResult,
    fast: bool,
)
    requires
        tells_how(commit),
        commit.pending.len() < usize::MAX,
    ensures
        tells_how(applied(commit, accesses, result, fast)),
        tells_how(recorded(discarded(commit), accesses, result, ExecutionPath::Reexecuted, 2)),
        tells_how(recorded(commit, accesses, result, ExecutionPath::Sequential, 1)),
        applied(commit, accesses, result, fast).stats.speculative_executions
            == commit.stats.speculative_executions,
        ({
            let receipts = applied(commit, accesses, result, fast).pending;
            &&& receipts.len() == commit.pending.len() + 1
            &&& receipts.last().result == result
            &&& receipts.last().accesses == accesses
            &&& receipts.last().path == ExecutionPath::StructuralFastPath <==> fast
            &&& receipts.drop_last() == commit.pending
        }),
        ({
            let receipts = recorded(
                discarded(commit),
                accesses,
                result,
                ExecutionPath::Reexecuted,
                2,
            ).pending;
            &&& receipts.len() == commit.pending.len() + 1
            &&& receipts.last().result == result
            &&& receipts.last().accesses == accesses
            &&& receipts.drop_last() == commit.pending
        }),
{
    let receipts = commit.pending;
    lemma_on_path(receipts, ExecutionPath::StructuralFastPath);
    lemma_on_path(receipts, ExecutionPath::Optimistic);
    lemma_on_path(receipts, ExecutionPath::Reexecuted);
    let one = applied(commit, accesses, result, fast).pending;
    let two = recorded(discarded(commit), accesses, result, ExecutionPath::Reexecuted, 2).pending;
    let three = recorded(commit, accesses, result, ExecutionPath::Sequential, 1).pending;
    assert(one.drop_last() =~= receipts);
    assert(two.drop_last() =~= receipts);
    assert(three.drop_last() =~= receipts);
}

proof fn lemma_on_path(receipts: Seq<ReceiptModel>, path: ExecutionPath)
    ensures
        on_path(receipts, path) <= receipts.len(),
    decreases receipts.len(),
{
    if receipts.len() > 0 {
        lemma_on_path(receipts.drop_last(), path);
    }
}

/// Whether every object that a transaction declares is its sender's own, is so in the
/// state, and stays so.
pub open spec fn is_private(
    owners: Map<ObjectId, Owner>,
    transaction: ExecutableTransaction,
) -> bool {
    let references = transaction.object_references@;
    let own = Owner::Single(sender_of(transaction.operation));
    &&& references.len() > 0
    &&& forall|k: int|
        0 <= k < references.len() ==> (#[trigger] references[k]).owner == own && (
        owners.contains_key(references[k].id) ==> owners[references[k].id] == own)
    &&& resulting_owner(transaction.operation) is Some ==> resulting_owner(transaction.operation)
        == Some(own)
}

/// A lane is for its owner: only a transaction whose objects are all its sender's own
/// runs on a lane, and the lane is its sender's.
pub proof fn law_lanes_are_for_private_objects(
    owners: Map<ObjectId, Owner>,
    transactions: Seq<ExecutableTransaction>,
    i: int,
    owner: Address,
)
    requires
        0 <= i < transactions.len(),
        fast_lanes(owners, transactions)[i] == Some(owner),
    ensures
        owner == sender_of(transactions[i].operation),
        is_private(owners, transactions[i]),
{
    let first = candidates(owners, transactions);
    lemma_lanes_only_close(transactions, first, transactions.len(), i);
    assert(first[i] == lane_owner(owners, transactions[i]));
}

proof fn lemma_lanes_only_close(
    transactions: Seq<ExecutableTransaction>,
    lanes: Seq<Option<Address>>,
    rounds: nat,
    i: int,
)
    requires
        0 <= i < lanes.len(),
    ensures
        lanes_after(transactions, lanes, rounds).len() == lanes.len(),
        lanes_after(transactions, lanes, rounds)[i] is Some ==> lanes_after(
            transactions,
            lanes,
            rounds,
        )[i] == lanes[i],
    decreases rounds,
{
    if rounds > 0 {
        lemma_lanes_only_close(transactions, lanes, (rounds - 1) as nat, i);
    }
}

/// Whether some transactions of a block keep to themselves: all are of one sender and
/// private, and no other transaction of the block declares an object of theirs.
pub open spec fn keeps_to_itself(
    owners: Map<ObjectId, Owner>,
    transactions: Seq<ExecutableTransaction>,
    group: Set<int>,
    owner: Address,
) -> bool {
    &&& forall|i: int| #[trigger]
        group.contains(i) ==> 0 <= i < transactions.len() && is_private(owners, transactions[i])
            && sender_of(transactions[i].operation) == owner
    &&& forall|i: int, j: int, id: ObjectId|
        group.contains(i) && 0 <= j < transactions.len() && #[trigger] uses(transactions, i, id)
            && #[trigger] uses(transactions, j, id) ==> group.contains(j)
}

/// Private transactions that nobody else interferes with run on their sender's lane.
pub proof fn law_private_transactions_get_a_lane(
    owners: Map<ObjectId, Owner>,
    transactions: Seq<ExecutableTransaction>,
    group: Set<int>,
    owner: Address,
    i: int,
)
    requires
        keeps_to_itself(owners, transactions, group, owner),
        group.contains(i),
    ensures
        fast_lanes(owners, transactions)[i] == Some(owner),
{
    lemma_group_keeps_its_lane(owners, transactions, group, owner, transactions.len());
}

proof fn lemma_group_keeps_its_lane(
    owners: Map<ObjectId, Owner>,
    transactions: Seq<ExecutableTransaction>,
    group: Set<int>,
    owner: Address,
    rounds: nat,
)
    requires
        keeps_to_itself(owners, transactions, group, owner),
    ensures
        lanes_after(transactions, candidates(owners, transactions), rounds).len()
            == transactions.len(),
        forall|i: int| #[trigger]
            group.contains(i) ==> lanes_after(
                transactions,
                candidates(owners, transactions),
                rounds,
            )[i] == Some(owner),
    decreases rounds,
{
    let first = candidates(owners, transactions);
    if rounds == 0 {
        assert forall|i: int| #[trigger] group.contains(i) implies first[i] == Some(owner) by {
            let transaction = transactions[i];
            let references = transaction.object_references@;
            assert(references[0].owner == Owner::Single(owner));
            assert(first[i] == lane_owner(owners, transaction));
        }
    } else {
        let before = lanes_after(transactions, first, (rounds - 1) as nat);
        lemma_group_keeps_its_lane(owners, transactions, group, owner, (rounds - 1) as nat);
        assert forall|i: int| #[trigger] group.contains(i) implies demoted(
            transactions,
            before,
        )[i] == Some(owner) by {
            let references = transactions[i].object_references@;
            assert forall|k: int| 0 <= k < references.len() implies !is_contended(
                transactions,
                before,
                transactions.len() as int,
                (#[trigger] references[k]).id,
            ) by {
                let id = references[k].id;
                assert(uses(transactions, i, id));
            }
            assert(!is_held_back(transactions, before, i));
        }
    }
}

/// Every transaction of a block is in one piece of work: alone where it has no lane, with
/// all of its lane where it has one, and nothing else is worked on.
pub proof fn law_tasks_cover_the_block(lanes: Seq<Option<Address>>, i: int)
    requires
        0 <= i < lanes.len(),
    ensures
        lanes[i] is None ==> tasks_of(lanes).contains(TaskModel::Optimistic(i)),
        lanes[i] matches Some(owner) ==> exists|t: int|
            0 <= t < tasks_of(lanes).len() && (#[trigger] tasks_of(lanes)[t] matches TaskModel::FastLane(
                members,
            ) && members.contains(i) && forall|m: int| #[trigger]
                members.contains(m) ==> 0 <= m < lanes.len() && lanes[m] == lanes[i]),
        lanes[i] is Some ==> !tasks_of(lanes).contains(TaskModel::Optimistic(i)),
{
    let count = lanes.len() as int;
    let alone = members_of(lanes, None, count);
    let single = alone.map_values(|i: int| TaskModel::Optimistic(i));
    let owners = lane_owners(lanes);
    let sorted = sorted_keys(owners);
    let shared = sorted.map_values(
        |owner: Address| TaskModel::FastLane(members_of(lanes, Some(owner), count)),
    );
    let tasks = tasks_of(lanes);
    assert(tasks == single + shared);
    lemma_members(lanes, None, count);
    lemma_lane_owners_finite(lanes);
    lemma_sorted_keys_of_finite(owners);
    match lanes[i] {
        None => {
            assert(alone.contains(i));
            let k = choose|k: int| 0 <= k < alone.len() && alone[k] == i;
            assert(tasks[k] == TaskModel::Optimistic(i));
        },
        Some(owner) => {
            lemma_members(lanes, Some(owner), count);
            assert(owners.contains(owner));
            assert(sorted.contains(owner));
            let k = choose|k: int| 0 <= k < sorted.len() && sorted[k] == owner;
            let t = single.len() + k;
            assert(tasks[t] == TaskModel::FastLane(members_of(lanes, Some(owner), count)));
            if tasks.contains(TaskModel::Optimistic(i)) {
                let u = choose|u: int| 0 <= u < tasks.len() && tasks[u] == TaskModel::Optimistic(i);
                if u < single.len() {
                    assert(alone[u] == i);
                    assert(alone.contains(i));
                } else {
                    assert(tasks[u] == shared[u - single.len()]);
                }
            }
        },
    }
}

proof fn lemma_lane_owners_finite(lanes: Seq<Option<Address>>)
    ensures
        lane_owners(lanes).finite(),
    decreases lanes.len(),
{
    if lanes.len() == 0 {
        assert(lane_owners(lanes) =~= Set::<Address>::empty());
    } else {
        let shorter = lanes.drop_last();
        lemma_lane_owners_finite(shorter);
        let earlier = lane_owners(shorter);
        let all = match lanes.last() {
            Some(owner) => earlier.insert(owner),
            None => earlier,
        };
        assert forall|owner: Address| #[trigger] lane_owners(lanes).contains(owner) implies
            all.contains(owner) by {
            let i = choose|i: int| 0 <= i < lanes.len() && #[trigger] lanes[i] == Some(owner);
            if i < shorter.len() {
                assert(shorter[i] == Some(owner));
            }
        }
        assert(lane_owners(lanes).subset_of(all));
        vstd::set_lib::lemma_set_subset_finite(all, lane_owners(lanes));
    }
}

/// A native operation costs the flat charge and nothing is left of it where the limit
/// does not cover that; Move code is metered up to the limit.
pub proof fn law_native_operations_cost_a_flat_charge(operation: MoveOperation)
    ensures
        native_charge().compute_used == 100,
        native_charge().event_count == 0,
        is_metered(operation) <==> {
            ||| operation matches MoveOperation::PublishModule { .. }
            ||| operation matches MoveOperation::EntryFunction(_)
        },
{
}

/// The deferred stage runs what was ordered: an accepted block is the one that runs next,
/// with its own transactions, once nothing else runs, and its result comes out under its
/// height and identity with what execution reported.
pub proof fn law_stage_runs_what_was_ordered(
    stage: DeferredModel,
    block: OrderedExecutionBlock,
    executed: Result<BlockExecutionResult, ExecutionError>,
    snapshot: Result<Vec<u8>, String>,
)
    requires
        submission(stage, block) is Ok,
        stage.running is None,
        stage.completed.len() == 0,
    ensures
        !stage.stopped,
        stage.buffered is None,
        block.transaction_ids@.len() == block.transactions@.len(),
        ({
            let submitted = after_submission(stage, block);
            let begun = after_begin(submitted);
            let advanced = after_epoch(begun, Ok(()));
            let done = after_execution(advanced, executed, snapshot);
            &&& next_to_run(submitted) == Some(block)
            &&& begun.running is Some
            &&& begun.running.unwrap().height == block.height
            &&& begun.running.unwrap().consensus_block_id == block.consensus_block_id
            &&& begun.running.unwrap().transactions == Some(block.transactions@)
            &&& begun.buffered is None
            &&& awaits_execution(advanced)
            &&& done.running is None
            &&& done.completed.len() == 1
            &&& done.completed[0].height == block.height
            &&& done.completed[0].consensus_block_id == block.consensus_block_id
            &&& executed is Ok && snapshot is Ok ==> done.completed[0].result == executed
                && done.completed[0].state_snapshot == Some(snapshot->Ok_0)
            &&& executed is Err ==> done.completed[0].result == executed
                && done.completed[0].state_snapshot is None
            &&& executed is Ok && snapshot is Err ==> done.completed[0].result is Err
                && done.completed[0].state_snapshot is None
            &&& after_poll(done).completed.len() == 0
        }),
{
}

/// A block is refused where its identifiers and transactions differ in number, where the
/// stage has stopped, or where a block waits already, and for no other reason.
pub proof fn law_stage_refuses_only_for_cause(stage: DeferredModel, block: OrderedExecutionBlock)
    ensures
        submission(stage, block) is Ok <==> {
            &&& block.transaction_ids@.len() == block.transactions@.len()
            &&& !stage.stopped
            &&& stage.buffered is None
        },
        submission(stage, block) is Err ==> after_submission(stage, block) == stage,
        stage.buffered is Some && !stage.stopped && block.transaction_ids@.len()
            == block.transactions@.len() ==> submission(stage, block) == Err::<
            (),
            DeferredExecutionError,
        >(DeferredExecutionError::LagLimitReached),
{
}

/// The owner that an operation leaves its object with is the one that the operation
/// itself names: that of the object it writes, or the one it hands the object to.
pub proof fn law_resulting_owner_is_the_operations_own(operation: MoveOperation)
    ensures
        operation matches MoveOperation::MutateObject { replacement, .. } ==> resulting_owner(
            operation,
        ) == Some(replacement.owner),
        operation matches MoveOperation::CreateObject { object, .. } ==> resulting_owner(operation)
            == Some(object.owner),
        operation matches MoveOperation::TransferObject { new_owner, .. } ==> resulting_owner(
            operation,
        ) == Some(new_owner),
        operation matches MoveOperation::ResurrectObject { witness, .. } ==> resulting_owner(
            operation,
        ) == Some(witness.object.owner),
        operation is PublishModule || operation is EntryFunction || operation is DeleteObject
            ==> resulting_owner(operation) is None,
{
}

/// Work is handed out in pieces of the least size at which each worker gets four at most.
pub proof fn law_workers_take_their_share(task_count: usize, worker_count: usize, grain: usize)
    requires
        worker_count > 0,
        call_ensures(minimum_grain, (task_count, worker_count), grain),
    ensures
        grain >= 1,
        grain * (4 * worker_count) >= task_count,
        grain > 1 ==> (grain - 1) * (4 * worker_count) < task_count,
{
}

/// Move code is metered up to its limit; anything else costs a hundred units, or fails
/// where its limit is less.
pub proof fn law_operations_are_planned_by_cost(
    operation: &MoveOperation,
    compute_limit: u64,
    plan: Result<OperationPlan, MoveHostError>,
)
    requires
        call_ensures(plan_operation, (operation, compute_limit), plan),
    ensures
        operation is PublishModule || operation is EntryFunction ==> plan == Ok::<
            OperationPlan,
            MoveHostError,
        >(OperationPlan::Metered { compute_limit }),
        !(operation is PublishModule || operation is EntryFunction) ==> {
            &&& compute_limit < 100 <==> plan is Err
            &&& plan matches Ok(OperationPlan::Native { result }) ==> result.compute_used == 100
                && result.event_count == 0
            &&& compute_limit >= 100 ==> plan matches Ok(OperationPlan::Native { .. })
        },
{
}

/// A block's epoch is the one that its height lies in.
pub proof fn law_block_runs_in_its_epoch(settings: &DeferredSettings, height: u64, epoch: Epoch)
    requires
        call_ensures(DeferredSettings::target_epoch, (settings, height), epoch),
    ensures
        epoch * settings.epoch_length() <= height < (epoch + 1) * settings.epoch_length(),
{
}

} // verus!
