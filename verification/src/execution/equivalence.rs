//! Why speculative execution cannot be told apart from sequential execution.

use vstd::prelude::*;

use crate::execution::commit::{
    applied, commits_as_is, discarded, is_declared, recorded, CommitModel, ExecutionPath, SchedulerStats,
};
use crate::execution::scheduling::{
    conflicts, fast_lanes, refers_to, undeclared, uses, AccessModel,
};
use crate::execution::transactions::{ExecutableTransaction, OperationResult};
use crate::types::{Address, ObjectId, Owner};

verus! {

/// What running a transaction on a store does.
pub struct RunModel<V> {
    pub result: Option<OperationResult>,
    pub accesses: AccessModel,
    pub after: Map<ObjectId, V>,
}

/// A machine that runs the transactions of a block, each by its position.
pub type Machine<V> = spec_fn(int, Map<ObjectId, V>) -> RunModel<V>;

/// Whether two stores hold the same at an object.
pub open spec fn same_at<V>(left: Map<ObjectId, V>, right: Map<ObjectId, V>, id: ObjectId) -> bool {
    &&& left.contains_key(id) == right.contains_key(id)
    &&& left.contains_key(id) ==> left[id] == right[id]
}

/// Whether accesses cover an object.
pub open spec fn covers(accesses: AccessModel, id: ObjectId) -> bool {
    accesses.reads.contains(id) || accesses.writes.contains(id)
}

/// Whether two stores hold the same wherever accesses cover.
pub open spec fn agree<V>(left: Map<ObjectId, V>, right: Map<ObjectId, V>, accesses: AccessModel) -> bool {
    forall|id: ObjectId| covers(accesses, id) ==> #[trigger] same_at(left, right, id)
}

/// Whether accesses tell all that a machine depends on and changes: what it does
/// is determined by the objects that it accesses, and it changes nothing but the
/// objects that it writes.
pub open spec fn tracks_accesses<V>(machine: Machine<V>) -> bool {
    &&& forall|i: int, left: Map<ObjectId, V>, right: Map<ObjectId, V>|
        #![trigger machine(i, left), machine(i, right)]
        agree(left, right, machine(i, left).accesses) ==> {
            &&& machine(i, left).result == machine(i, right).result
            &&& machine(i, left).accesses == machine(i, right).accesses
            &&& forall|id: ObjectId|
                machine(i, left).accesses.writes.contains(id) ==> #[trigger] same_at(
                    machine(i, left).after,
                    machine(i, right).after,
                    id,
                )
        }
    &&& forall|i: int, store: Map<ObjectId, V>, id: ObjectId|
        #![trigger same_at(store, machine(i, store).after, id)]
        !machine(i, store).accesses.writes.contains(id) ==> same_at(
            store,
            machine(i, store).after,
            id,
        )
}

/// A store after the writes of a run were applied to it.
pub open spec fn with_writes<V>(store: Map<ObjectId, V>, run: RunModel<V>) -> Map<ObjectId, V> {
    Map::new(
        |id: ObjectId|
            if run.accesses.writes.contains(id) {
                run.after.contains_key(id)
            } else {
                store.contains_key(id)
            },
        |id: ObjectId|
            if run.accesses.writes.contains(id) {
                run.after[id]
            } else {
                store[id]
            },
    )
}

/// The store after the first `count` transactions ran one after another.
pub open spec fn in_sequence<V>(machine: Machine<V>, base: Map<ObjectId, V>, count: nat) -> Map<
    ObjectId,
    V,
>
    decreases count,
{
    if count == 0 {
        base
    } else {
        machine(count - 1, in_sequence(machine, base, (count - 1) as nat)).after
    }
}

/// The store that a lane speculates on once its members among the first `count`
/// transactions ran on it.
pub open spec fn lane_store<V>(
    machine: Machine<V>,
    base: Map<ObjectId, V>,
    lanes: Seq<Option<Address>>,
    lane: Address,
    count: nat,
) -> Map<ObjectId, V>
    decreases count,
{
    if count == 0 {
        base
    } else {
        let earlier = lane_store(machine, base, lanes, lane, (count - 1) as nat);
        if lanes[count - 1] == Some(lane) {
            let run = machine(count - 1, earlier);
            if run.result is Some {
                with_writes(earlier, run)
            } else {
                earlier
            }
        } else {
            earlier
        }
    }
}

/// What speculating a transaction gives: on a lane it sees the lane's earlier
/// effects, otherwise the store before the block.
pub open spec fn attempt<V>(
    machine: Machine<V>,
    base: Map<ObjectId, V>,
    lanes: Seq<Option<Address>>,
    i: nat,
) -> RunModel<V> {
    match lanes[i as int] {
        Some(lane) => machine(i as int, lane_store(machine, base, lanes, lane, i)),
        None => machine(i as int, base),
    }
}

/// Why a block stopped committing.
pub enum Stop {
    /// A transaction went beyond what it declared.
    Undeclared,
    /// A transaction failed on the state that the transactions before it left.
    Failed,
}

/// A block on its way: the store, the ordered commit and why it stopped, if it
/// did.
pub struct ParallelModel<V> {
    pub store: Map<ObjectId, V>,
    pub commit: CommitModel,
    pub stopped: Option<Stop>,
}

/// The commit of a block before its first transaction, with one speculative
/// attempt for each transaction.
pub open spec fn before_first(transactions: Seq<ExecutableTransaction>) -> CommitModel {
    CommitModel {
        pending: Seq::empty(),
        committed_writes: Set::empty(),
        stats: SchedulerStats {
            speculative_executions: transactions.len() as usize,
            structural_fast_path: 0,
            optimistic_commits: 0,
            aborts: 0,
            reexecutions: 0,
        },
    }
}

/// The block after the transaction at `i` was offered with its attempt and, where
/// the attempt did not commit as it is, run again on the latest store.
pub open spec fn committed_next<V>(
    machine: Machine<V>,
    transaction: ExecutableTransaction,
    i: nat,
    run: RunModel<V>,
    fast: bool,
    state: ParallelModel<V>,
) -> ParallelModel<V> {
    if !is_declared(transaction, run.accesses) {
        ParallelModel { stopped: Some(Stop::Undeclared), ..state }
    } else if commits_as_is(state.commit, run.accesses, run.result, fast) {
        ParallelModel {
            store: with_writes(state.store, run),
            commit: applied(state.commit, run.accesses, run.result.unwrap(), fast),
            stopped: None,
        }
    } else {
        let again = machine(i as int, state.store);
        let commit = discarded(state.commit);
        if !is_declared(transaction, again.accesses) {
            ParallelModel { commit, stopped: Some(Stop::Undeclared), ..state }
        } else {
            match again.result {
                None => ParallelModel { commit, stopped: Some(Stop::Failed), ..state },
                Some(result) => ParallelModel {
                    store: again.after,
                    commit: recorded(commit, again.accesses, result, ExecutionPath::Reexecuted, 2),
                    stopped: None,
                },
            }
        }
    }
}

/// The block after its first `count` transactions were offered in order, as long
/// as it had not stopped.
pub open spec fn in_parallel<V>(
    machine: Machine<V>,
    base: Map<ObjectId, V>,
    transactions: Seq<ExecutableTransaction>,
    lanes: Seq<Option<Address>>,
    count: nat,
) -> ParallelModel<V>
    decreases count,
{
    if count == 0 {
        ParallelModel { store: base, commit: before_first(transactions), stopped: None }
    } else {
        let i = (count - 1) as nat;
        let state = in_parallel(machine, base, transactions, lanes, i);
        if state.stopped is Some {
            state
        } else {
            committed_next(
                machine,
                transactions[i as int],
                i,
                attempt(machine, base, lanes, i),
                lanes[i as int] is Some,
                state,
            )
        }
    }
}

/// What running the transaction at `i` gives where the transactions before it ran
/// one after another.
pub open spec fn run_in_sequence<V>(machine: Machine<V>, base: Map<ObjectId, V>, i: nat) -> RunModel<
    V,
> {
    machine(i as int, in_sequence(machine, base, i))
}

/// Whether the first `count` transactions all succeed one after another.
pub open spec fn succeeds_in_sequence<V>(
    machine: Machine<V>,
    base: Map<ObjectId, V>,
    count: nat,
) -> bool {
    forall|i: nat| i < count ==> (#[trigger] run_in_sequence(machine, base, i)).result is Some
}

/// Whether no transaction goes beyond what it declared, whatever the store holds.
pub open spec fn stays_declared<V>(
    machine: Machine<V>,
    transactions: Seq<ExecutableTransaction>,
) -> bool {
    forall|i: int, store: Map<ObjectId, V>|
        0 <= i < transactions.len() ==> is_declared(
            transactions[i],
            (#[trigger] machine(i, store)).accesses,
        )
}

/// Whether a block has committed a prefix of its transactions exactly as running
/// them one after another would: the store, and in each receipt the result and the
/// accesses.
pub open spec fn commits_prefix<V>(
    machine: Machine<V>,
    base: Map<ObjectId, V>,
    state: ParallelModel<V>,
) -> bool {
    let receipts = state.commit.pending;
    &&& state.store == in_sequence(machine, base, receipts.len())
    &&& forall|i: nat|
        i < receipts.len() ==> {
            let run = #[trigger] run_in_sequence(machine, base, i);
            &&& run.result == Some(receipts[i as int].result)
            &&& run.accesses == receipts[i as int].accesses
        }
}

/// What relates the ordered commit to the store before the block: outside what
/// was written, it is as before; and each lane finds its own objects as it
/// speculated them.
spec fn consistent<V>(
    machine: Machine<V>,
    base: Map<ObjectId, V>,
    transactions: Seq<ExecutableTransaction>,
    lanes: Seq<Option<Address>>,
    count: nat,
    state: ParallelModel<V>,
) -> bool {
    &&& forall|j: int, id: ObjectId|
        0 <= j < transactions.len() && lanes[j] is None && #[trigger] uses(transactions, j, id)
            && !state.commit.committed_writes.contains(id) ==> same_at(base, state.store, id)
    &&& forall|j: int, id: ObjectId|
        0 <= j < transactions.len() && lanes[j] is Some && #[trigger] uses(transactions, j, id)
            ==> same_at(
            lane_store(machine, base, lanes, lanes[j].unwrap(), count),
            state.store,
            id,
        )
}

proof fn lemma_declared(transaction: ExecutableTransaction, accesses: AccessModel, id: ObjectId)
    requires
        is_declared(transaction, accesses),
        covers(accesses, id),
    ensures
        refers_to(transaction.object_references@, id),
{
    let references = transaction.object_references@;
    let missing = undeclared(references, accesses);
    assert(!missing.contains(id));
    if accesses.writes.contains(id) {
        assert(crate::execution::scheduling::refers_to_write(references, id));
        let k = choose|k: int|
            0 <= k < references.len() && (#[trigger] references[k]).id == id
                && references[k].access == crate::execution::transactions::AccessMode::Write;
        assert(references[k].id == id);
    }
}

proof fn lemma_step<V>(
    machine: Machine<V>,
    base: Map<ObjectId, V>,
    owners: Map<ObjectId, Owner>,
    transactions: Seq<ExecutableTransaction>,
    count: nat,
)
    requires
        tracks_accesses(machine),
        count <= transactions.len(),
    ensures
        ({
            let lanes = fast_lanes(owners, transactions);
            let state = in_parallel(machine, base, transactions, lanes, count);
            let committed = state.commit.pending.len();
            &&& commits_prefix(machine, base, state)
            &&& match state.stopped {
                None => committed == count && consistent(
                    machine,
                    base,
                    transactions,
                    lanes,
                    count,
                    state,
                ),
                Some(Stop::Failed) => committed < count && run_in_sequence(
                    machine,
                    base,
                    committed,
                ).result is None,
                Some(Stop::Undeclared) => committed < count,
            }
        }),
    decreases count,
{
    let lanes = fast_lanes(owners, transactions);
    crate::execution::scheduling::lemma_fast_lanes_settled(owners, transactions);
    if count > 0 {
        let i = (count - 1) as nat;
        lemma_step(machine, base, owners, transactions, i);
        let before = in_parallel(machine, base, transactions, lanes, i);
        let state = in_parallel(machine, base, transactions, lanes, count);
        if before.stopped is None && state.stopped is None {
            lemma_committed(machine, base, owners, transactions, i);
        }
    }
}

/// The step of a block that does not stop.
proof fn lemma_committed<V>(
    machine: Machine<V>,
    base: Map<ObjectId, V>,
    owners: Map<ObjectId, Owner>,
    transactions: Seq<ExecutableTransaction>,
    i: nat,
)
    requires
        tracks_accesses(machine),
        i < transactions.len(),
        ({
            let lanes = fast_lanes(owners, transactions);
            let before = in_parallel(machine, base, transactions, lanes, i);
            &&& before.stopped is None
            &&& before.commit.pending.len() == i
            &&& commits_prefix(machine, base, before)
            &&& consistent(machine, base, transactions, lanes, i, before)
        }),
        in_parallel(
            machine,
            base,
            transactions,
            fast_lanes(owners, transactions),
            i + 1,
        ).stopped is None,
    ensures
        ({
            let lanes = fast_lanes(owners, transactions);
            let state = in_parallel(machine, base, transactions, lanes, i + 1);
            &&& state.commit.pending.len() == i + 1
            &&& commits_prefix(machine, base, state)
            &&& consistent(machine, base, transactions, lanes, i + 1, state)
        }),
{
    let count = i + 1;
    let lanes = fast_lanes(owners, transactions);
    crate::execution::scheduling::lemma_fast_lanes_settled(owners, transactions);
    let before = in_parallel(machine, base, transactions, lanes, i);
    let state = in_parallel(machine, base, transactions, lanes, count);
    let changed = before.commit.committed_writes;
    let run = attempt(machine, base, lanes, i);
    let fast = lanes[i as int] is Some;
    let direct = machine(i as int, before.store);
    assert(direct == run_in_sequence(machine, base, i));
    let speculated = match lanes[i as int] {
        Some(lane) => lane_store(machine, base, lanes, lane, i),
        None => base,
    };
    // Where the attempt saw what the latest state holds, running it again would
    // give the same.
    if fast || !conflicts(run.accesses, changed) {
        assert forall|id: ObjectId| covers(run.accesses, id) implies #[trigger] same_at(
            speculated,
            before.store,
            id,
        ) by {
            lemma_declared(transactions[i as int], run.accesses, id);
            assert(uses(transactions, i as int, id));
            if !fast && changed.contains(id) {
                assert(conflicts(run.accesses, changed));
            }
        }
        assert(agree(speculated, before.store, run.accesses));
        assert(machine(i as int, speculated) == run);
        assert(run.result == direct.result);
        assert(run.accesses == direct.accesses);
    }
    let kept = commits_as_is(before.commit, run.accesses, run.result, fast);
    let written = if kept {
        run.accesses.writes
    } else {
        direct.accesses.writes
    };
    if kept {
        assert forall|id: ObjectId|
            #![trigger state.store.dom().contains(id)]
            #![trigger direct.after.dom().contains(id)]
            same_at(state.store, direct.after, id) by {
            if run.accesses.writes.contains(id) {
                assert(same_at(run.after, direct.after, id));
            } else {
                assert(same_at(before.store, direct.after, id));
            }
        }
        assert(state.store =~= direct.after);
    }
    assert(state.store == in_sequence(machine, base, count));
    let receipts = state.commit.pending;
    assert forall|k: nat| k < receipts.len() implies {
        let earlier = #[trigger] run_in_sequence(machine, base, k);
        &&& earlier.result == Some(receipts[k as int].result)
        &&& earlier.accesses == receipts[k as int].accesses
    } by {
        if k < i {
            assert(receipts[k as int] == before.commit.pending[k as int]);
        }
    }
    // What transaction `i` writes is declared by it, so it leaves alone what
    // other lanes use.
    assert forall|id: ObjectId| #[trigger] written.contains(id) implies uses(
        transactions,
        i as int,
        id,
    ) by {
        if kept {
            lemma_declared(transactions[i as int], run.accesses, id);
        } else {
            lemma_declared(transactions[i as int], direct.accesses, id);
        }
    }
    assert forall|id: ObjectId| !written.contains(id) implies #[trigger] same_at(
        before.store,
        state.store,
        id,
    ) by {
        assert(same_at(before.store, direct.after, id));
    }
    assert forall|j: int, id: ObjectId|
        0 <= j < transactions.len() && lanes[j] is None && #[trigger] uses(transactions, j, id)
            && !state.commit.committed_writes.contains(id) implies same_at(
        base,
        state.store,
        id,
    ) by {
        if written.contains(id) {
            if fast {
                crate::execution::scheduling::law_fast_lanes_are_disjoint(
                    owners,
                    transactions,
                    i as int,
                    j,
                    id,
                );
            }
            assert(false);
        }
        assert(same_at(before.store, state.store, id));
        assert(!changed.contains(id));
        assert(same_at(base, before.store, id));
    }
    assert forall|j: int, id: ObjectId|
        0 <= j < transactions.len() && lanes[j] is Some && #[trigger] uses(
            transactions,
            j,
            id,
        ) implies same_at(
        lane_store(machine, base, lanes, lanes[j].unwrap(), count),
        state.store,
        id,
    ) by {
        let lane = lanes[j].unwrap();
        let earlier = lane_store(machine, base, lanes, lane, i);
        assert(same_at(earlier, before.store, id));
        if lanes[i as int] == Some(lane) {
            // A failed attempt of a lane fails again, so the block would have
            // stopped.
            assert(kept);
            if run.accesses.writes.contains(id) {
                assert(same_at(run.after, direct.after, id));
            } else {
                assert(same_at(before.store, state.store, id));
            }
        } else {
            if written.contains(id) {
                crate::execution::scheduling::law_fast_lanes_are_disjoint(
                    owners,
                    transactions,
                    j,
                    i as int,
                    id,
                );
                assert(false);
            }
            assert(same_at(before.store, state.store, id));
        }
    }
}

/// Committing a block in parallel cannot be told apart from running its
/// transactions one after another, on every machine whose accesses are tracked:
/// what is committed after any number of transactions is a prefix of the block,
/// with the store, the results and the accesses of that prefix. A block that did
/// not stop has committed every transaction, and a block that a failure stopped
/// names the transaction that fails in sequence too.
pub proof fn law_parallel_execution_is_sequential<V>(
    machine: Machine<V>,
    base: Map<ObjectId, V>,
    owners: Map<ObjectId, Owner>,
    transactions: Seq<ExecutableTransaction>,
    count: nat,
)
    requires
        tracks_accesses(machine),
        count <= transactions.len(),
    ensures
        ({
            let state = in_parallel(
                machine,
                base,
                transactions,
                fast_lanes(owners, transactions),
                count,
            );
            let committed = state.commit.pending.len();
            &&& commits_prefix(machine, base, state)
            &&& state.stopped is None <==> committed == count
            &&& state.stopped is Some <==> committed < count
            &&& state.stopped == Some(Stop::Failed) ==> run_in_sequence(
                machine,
                base,
                committed,
            ).result is None
        }),
{
    lemma_step(machine, base, owners, transactions, count);
}

/// Where transactions stay within their declarations, a block stops exactly where
/// running it one transaction after another first fails: it goes on as long as
/// every transaction succeeds in sequence, and otherwise it names the first that
/// does not, with the store that the transactions before it leave.
pub proof fn law_first_failure_stops_the_block<V>(
    machine: Machine<V>,
    base: Map<ObjectId, V>,
    owners: Map<ObjectId, Owner>,
    transactions: Seq<ExecutableTransaction>,
    count: nat,
)
    requires
        tracks_accesses(machine),
        stays_declared(machine, transactions),
        count <= transactions.len(),
    ensures
        ({
            let state = in_parallel(
                machine,
                base,
                transactions,
                fast_lanes(owners, transactions),
                count,
            );
            let committed = state.commit.pending.len();
            &&& state.stopped is None <==> succeeds_in_sequence(machine, base, count)
            &&& !succeeds_in_sequence(machine, base, count) ==> {
                &&& state.stopped == Some(Stop::Failed)
                &&& committed < count
                &&& succeeds_in_sequence(machine, base, committed)
                &&& run_in_sequence(machine, base, committed).result is None
                &&& state.store == in_sequence(machine, base, committed)
            }
        }),
{
    let lanes = fast_lanes(owners, transactions);
    lemma_step(machine, base, owners, transactions, count);
    lemma_never_undeclared(machine, base, transactions, lanes, count);
}

proof fn lemma_never_undeclared<V>(
    machine: Machine<V>,
    base: Map<ObjectId, V>,
    transactions: Seq<ExecutableTransaction>,
    lanes: Seq<Option<Address>>,
    count: nat,
)
    requires
        stays_declared(machine, transactions),
        count <= transactions.len(),
    ensures
        in_parallel(machine, base, transactions, lanes, count).stopped != Some(Stop::Undeclared),
    decreases count,
{
    if count > 0 {
        lemma_never_undeclared(machine, base, transactions, lanes, (count - 1) as nat);
    }
}

} // verus!
