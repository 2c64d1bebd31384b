//! Operations with their declared object references and compute budgets.

use vstd::prelude::*;

use crate::ordered::OrderedSet;
use crate::types::{Address, Object, ObjectId, Owner};

verus! {

/// A call of a Move entry function. Its arguments are kept encoded.
#[derive(Debug, PartialEq, Eq)]
pub struct MoveCall {
    pub sender: Address,
    pub module_address: Address,
    pub module_name: String,
    pub function: String,
    pub arguments: Vec<Vec<u8>>,
}

/// An expired object with the encoded proof that it once existed.
#[derive(Debug, PartialEq, Eq)]
pub struct ResurrectionWitness {
    pub object: Object,
    pub proof_bytes: Vec<u8>,
}

/// An ordered operation understood by the execution layer.
#[derive(Debug, PartialEq, Eq)]
pub enum MoveOperation {
    PublishModule { sender: Address, module_bytes: Vec<u8> },
    EntryFunction(MoveCall),
    CreateObject { sender: Address, object: Object },
    MutateObject { sender: Address, id: ObjectId, expected_version: u64, replacement: Object },
    DeleteObject { sender: Address, id: ObjectId, expected_version: u64 },
    TransferObject { sender: Address, id: ObjectId, expected_version: u64, new_owner: Owner },
    ResurrectObject { sender: Address, witness: ResurrectionWitness, rent_credit: u64 },
}

/// Who sends an operation.
pub open spec fn sender_of(operation: MoveOperation) -> Address {
    match operation {
        MoveOperation::PublishModule { sender, .. } => sender,
        MoveOperation::EntryFunction(call) => call.sender,
        MoveOperation::CreateObject { sender, .. } => sender,
        MoveOperation::MutateObject { sender, .. } => sender,
        MoveOperation::DeleteObject { sender, .. } => sender,
        MoveOperation::TransferObject { sender, .. } => sender,
        MoveOperation::ResurrectObject { sender, .. } => sender,
    }
}

/// The owner that an operation gives to the object it creates, changes or
/// brings back, if it says one.
pub open spec fn resulting_owner(operation: MoveOperation) -> Option<Owner> {
    match operation {
        MoveOperation::MutateObject { replacement, .. } => Some(replacement.owner),
        MoveOperation::CreateObject { object, .. } => Some(object.owner),
        MoveOperation::TransferObject { new_owner, .. } => Some(new_owner),
        MoveOperation::ResurrectObject { witness, .. } => Some(witness.object.owner),
        _ => None,
    }
}

/// Whether an operation is metered by the Move VM; the others are native object
/// primitives.
pub open spec fn is_metered(operation: MoveOperation) -> bool {
    operation is PublishModule || operation is EntryFunction
}

impl MoveOperation {
    /// Who sends the operation.
    pub fn sender(&self) -> (sender: Address)
        ensures
            sender == sender_of(*self),
    {
        match self {
            MoveOperation::PublishModule { sender, .. } => *sender,
            MoveOperation::EntryFunction(call) => call.sender,
            MoveOperation::CreateObject { sender, .. } => *sender,
            MoveOperation::MutateObject { sender, .. } => *sender,
            MoveOperation::DeleteObject { sender, .. } => *sender,
            MoveOperation::TransferObject { sender, .. } => *sender,
            MoveOperation::ResurrectObject { sender, .. } => *sender,
        }
    }

    /// The owner that the operation gives to its object, if it says one.
    pub fn resulting_owner(&self) -> (owner: Option<Owner>)
        ensures
            owner == resulting_owner(*self),
    {
        match self {
            MoveOperation::MutateObject { replacement, .. } => Some(replacement.owner),
            MoveOperation::CreateObject { object, .. } => Some(object.owner),
            MoveOperation::TransferObject { new_owner, .. } => Some(*new_owner),
            MoveOperation::ResurrectObject { witness, .. } => Some(witness.object.owner),
            _ => None,
        }
    }
}

/// Access mode declared by a transaction before execution.
#[derive(Clone, Copy, Debug, PartialEq, Eq, Structural)]
pub enum AccessMode {
    Read,
    Write,
}

/// Static object reference used for scheduling and fast-path eligibility.
#[derive(Clone, Copy, Debug, PartialEq, Eq)]
pub struct DeclaredObjectRef {
    pub id: ObjectId,
    pub owner: Owner,
    pub access: AccessMode,
}

/// Operation plus its complete, statically declared object references.
#[derive(Debug, PartialEq, Eq)]
pub struct ExecutableTransaction {
    pub operation: MoveOperation,
    pub object_references: Vec<DeclaredObjectRef>,
    /// Compute budget for this operation. Move operations meter real Move
    /// bytecode against this limit; native object operations are charged a flat
    /// cost and fail closed if it is not affordable. Exceeding the limit aborts
    /// the operation atomically.
    pub compute_limit: u64,
}

/// Flat compute charge for native object primitives, which bypass the Move VM
/// entirely and therefore have no per-bytecode cost to meter.
pub const NATIVE_OPERATION_COMPUTE_COST: u64 = 100;

/// Why the host of an operation refused it.
#[derive(Debug, PartialEq, Eq)]
pub enum MoveHostError {
    OutOfGas { gas_limit: u64 },
    /// What the Move VM or the object store reported.
    Host(String),
}

/// Execution failures carry the canonical transaction index for diagnosis.
#[derive(Debug, PartialEq, Eq)]
pub enum ExecutionError {
    Transaction { index: usize, source: MoveHostError },
    UndeclaredAccess { index: usize, objects: OrderedSet<ObjectId> },
    SchedulerInitialization(String),
    StateSnapshot(String),
    EpochAdvance(String),
}

/// Compute and events of a completed operation.
#[derive(Clone, Copy, Debug, PartialEq, Eq, Structural)]
pub struct OperationResult {
    pub event_count: usize,
    pub compute_used: u64,
}

/// How an operation is carried out.
#[derive(Clone, Copy, Debug, PartialEq, Eq, Structural)]
pub enum OperationPlan {
    /// The Move VM runs it against a compute limit and reports its result.
    Metered { compute_limit: u64 },
    /// The object store applies it, and the result is the flat charge.
    Native { result: OperationResult },
}

/// The result of every native operation.
pub open spec fn native_charge() -> OperationResult {
    OperationResult { event_count: 0, compute_used: NATIVE_OPERATION_COMPUTE_COST }
}

/// The result of every native operation.
pub fn native_result() -> (result: OperationResult)
    ensures
        result == native_charge(),
{
    OperationResult { event_count: 0, compute_used: NATIVE_OPERATION_COMPUTE_COST }
}

/// Charges a native operation against a compute limit.
///
/// # Errors
///
/// Fails where the flat charge is not affordable.
pub fn charge_native_operation(compute_limit: u64) -> (result: Result<(), MoveHostError>)
    ensures
        result == (if compute_limit < NATIVE_OPERATION_COMPUTE_COST {
            Err::<(), MoveHostError>(MoveHostError::OutOfGas { gas_limit: compute_limit })
        } else {
            Ok(())
        }),
{
    if compute_limit < NATIVE_OPERATION_COMPUTE_COST {
        return Err(MoveHostError::OutOfGas { gas_limit: compute_limit });
    }
    Ok(())
}

/// Decides how an operation is carried out within a compute limit.
///
/// # Errors
///
/// A native operation fails where its flat charge is not affordable, before
/// anything is applied.
pub fn plan_operation(operation: &MoveOperation, compute_limit: u64) -> (result: Result<
    OperationPlan,
    MoveHostError,
>)
    ensures
        result == (if is_metered(*operation) {
            Ok::<OperationPlan, MoveHostError>(OperationPlan::Metered { compute_limit })
        } else if compute_limit < NATIVE_OPERATION_COMPUTE_COST {
            Err(MoveHostError::OutOfGas { gas_limit: compute_limit })
        } else {
            Ok(OperationPlan::Native { result: native_charge() })
        }),
{
    match operation {
        MoveOperation::PublishModule { .. } | MoveOperation::EntryFunction(_) => Ok(
            OperationPlan::Metered { compute_limit },
        ),
        _ => match charge_native_operation(compute_limit) {
            Ok(()) => Ok(OperationPlan::Native { result: native_result() }),
            Err(error) => Err(error),
        },
    }
}

} // verus!
