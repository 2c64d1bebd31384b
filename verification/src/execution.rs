//! Deterministic sequential and optimistic parallel transaction execution: which
//! transactions may run side by side, in which order effects commit, and what
//! each leaves behind.

pub mod commit;
pub mod deferred;
pub mod equivalence;
pub mod guarantees;
pub mod scheduling;
pub mod transactions;

pub use commit::{
    BlockExecutionResult, CommitAction, ExecutionPath, ExecutionReceipt, OrderedCommit,
    SchedulerStats, SpeculativeAttempt,
};
pub use deferred::{
    DeferredExecutionError, DeferredExecutionResult, DeferredExecutor, OrderedExecutionBlock,
};
pub use scheduling::{
    build_tasks, classify_fast_path, conflicts_with_committed_writes, StateAccesses,
    SpeculationTask,
};
pub use transactions::{
    AccessMode, DeclaredObjectRef, ExecutableTransaction, ExecutionError, MoveCall, MoveHostError,
    MoveOperation, ResurrectionWitness, NATIVE_OPERATION_COMPUTE_COST,
};
