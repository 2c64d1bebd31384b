//! The bounded stage between finalized order and execution.

use vstd::prelude::*;

use crate::execution::commit::BlockExecutionResult;
use crate::execution::transactions::{ExecutableTransaction, ExecutionError};
use crate::types::{Epoch, Hash256};

verus! {

/// A finalized ordering decision paired with the locally available executable payloads.
#[derive(Debug, PartialEq, Eq)]
pub struct OrderedExecutionBlock {
    pub height: u64,
    pub consensus_block_id: Hash256,
    pub transaction_ids: Vec<Hash256>,
    pub transactions: Vec<ExecutableTransaction>,
}

/// Errors at the asynchronous consensus-to-execution boundary.
#[derive(Clone, Copy, Debug, PartialEq, Eq, Structural)]
pub enum DeferredExecutionError {
    /// The ordered block contains a different number of transaction IDs and payloads.
    TransactionCountMismatch,
    /// Execution is already one ordered block behind.
    LagLimitReached,
    /// The deferred execution worker stopped.
    WorkerStopped,
}

/// The settings of a deferred executor.
#[derive(Clone, Copy, Debug, PartialEq, Eq, Structural)]
pub struct DeferredSettings {
    worker_count: usize,
    blocks_per_epoch: u64,
}

impl DeferredSettings {
    #[verifier::type_invariant]
    spec fn usable(self) -> bool {
        self.worker_count > 0 && self.blocks_per_epoch > 0
    }

    /// How many blocks an epoch has.
    pub closed spec fn epoch_length(&self) -> u64 {
        self.blocks_per_epoch
    }

    /// How many workers speculate.
    pub closed spec fn workers(&self) -> usize {
        self.worker_count
    }

    /// Validates the settings of a deferred executor.
    ///
    /// # Errors
    ///
    /// Rejects epochs without blocks, then a pool without workers.
    pub fn new(worker_count: usize, blocks_per_epoch: u64) -> (result: Result<Self, ExecutionError>)
        ensures
            match result {
                Ok(settings) => blocks_per_epoch > 0 && worker_count > 0 && settings.epoch_length()
                    == blocks_per_epoch && settings.workers() == worker_count,
                Err(ExecutionError::SchedulerInitialization(reason)) => if blocks_per_epoch == 0 {
                    reason@ == "blocks per epoch must be greater than zero"@
                } else {
                    worker_count == 0 && reason@ == "worker count must be greater than zero"@
                },
                Err(_) => false,
            },
    {
        if blocks_per_epoch == 0 {
            return Err(
                ExecutionError::SchedulerInitialization(
                    "blocks per epoch must be greater than zero".to_owned(),
                ),
            );
        }
        if worker_count == 0 {
            return Err(
                ExecutionError::SchedulerInitialization(
                    "worker count must be greater than zero".to_owned(),
                ),
            );
        }
        Ok(DeferredSettings { worker_count, blocks_per_epoch })
    }

    /// The number of workers.
    pub fn worker_count(&self) -> (count: usize)
        ensures
            count == self.workers(),
            count > 0,
    {
        proof {
            use_type_invariant(self);
        }
        self.worker_count
    }

    /// The epoch that a block's height falls into. Before a block's transactions
    /// run, state advances to it, so the reported state root already reflects the
    /// epoch's rent accounting.
    pub fn target_epoch(&self, height: u64) -> (epoch: Epoch)
        ensures
            epoch == height / self.epoch_length(),
            epoch * self.epoch_length() <= height < (epoch + 1) * self.epoch_length(),
    {
        proof {
            use_type_invariant(self);
            law_epoch_holds_its_heights(height, self.blocks_per_epoch);
        }
        height / self.blocks_per_epoch
    }
}

/// An epoch begins at the height that is its number times its length, and ends before
/// the next one begins.
pub proof fn law_epoch_holds_its_heights(height: u64, blocks_per_epoch: u64)
    requires
        blocks_per_epoch > 0,
    ensures
        (height / blocks_per_epoch) * blocks_per_epoch <= height < (height / blocks_per_epoch + 1)
            * blocks_per_epoch,
{
    let length = blocks_per_epoch as int;
    let epoch = height as int / length;
    vstd::arithmetic::div_mod::lemma_fundamental_div_mod(height as int, length);
    assert(epoch * length <= height < (epoch + 1) * length) by (nonlinear_arith)
        requires
            height == length * epoch + height as int % length,
            0 <= height as int % length < length,
    ;
}

/// Epochs never go back, and an epoch lasts the configured number of blocks.
pub proof fn law_epochs_follow_heights(height: u64, later: u64, blocks_per_epoch: u64)
    requires
        height <= later,
        blocks_per_epoch > 0,
    ensures
        height / blocks_per_epoch <= later / blocks_per_epoch,
        later - height >= blocks_per_epoch ==> height / blocks_per_epoch < later / blocks_per_epoch,
{
    let length = blocks_per_epoch as int;
    let first = height as int / length;
    let second = later as int / length;
    vstd::arithmetic::div_mod::lemma_fundamental_div_mod(height as int, length);
    vstd::arithmetic::div_mod::lemma_fundamental_div_mod(later as int, length);
    assert(first <= second && (later - height >= length ==> first < second)) by (nonlinear_arith)
        requires
            height == length * first + height as int % length,
            later == length * second + later as int % length,
            0 <= height as int % length < length,
            0 <= later as int % length < length,
            height <= later,
            length > 0,
    ;
}

/// Result emitted by the execution stage without feeding effects back into ordering.
#[derive(Debug)]
pub struct DeferredExecutionResult {
    pub height: u64,
    pub consensus_block_id: Hash256,
    pub result: Result<BlockExecutionResult, ExecutionError>,
    /// State materialization emitted only after successful execution.
    pub state_snapshot: Option<Vec<u8>>,
}

/// What executing a block reports: a state snapshot comes with a successful
/// execution only, and failing to take it fails the block.
pub open spec fn reported(
    executed: Result<BlockExecutionResult, ExecutionError>,
    snapshot: Result<Vec<u8>, String>,
) -> (Result<BlockExecutionResult, ExecutionError>, Option<Vec<u8>>) {
    match executed {
        Err(error) => (Err(error), None),
        Ok(block) => match snapshot {
            Ok(bytes) => (Ok(block), Some(bytes)),
            Err(reason) => (Err(ExecutionError::StateSnapshot(reason)), None),
        },
    }
}

/// The block that a worker executes.
struct RunningBlock {
    height: u64,
    consensus_block_id: Hash256,
    /// The transactions, until state has reached the epoch of the block.
    transactions: Option<Vec<ExecutableTransaction>>,
}

/// The value of the block that a worker executes.
pub struct RunningModel {
    pub height: u64,
    pub consensus_block_id: Hash256,
    pub transactions: Option<Seq<ExecutableTransaction>>,
}

/// Bounded asynchronous stage connecting finalized order to execution.
///
/// One queued block is permitted while the worker executes the previous block.
/// Consensus never waits for an execution result; once that one-block pipeline
/// slot is occupied, submission reports backpressure to the node coordinator.
///
/// The worker that owns the state asks for the epoch of the next block, reports
/// that state has reached it, executes the transactions that it gets in return and
/// reports what came of them.
pub struct DeferredExecutor {
    settings: DeferredSettings,
    buffered: Option<OrderedExecutionBlock>,
    running: Option<RunningBlock>,
    completed: Vec<DeferredExecutionResult>,
    stopped: bool,
}

/// The value of the stage.
#[verifier::ext_equal]
pub struct DeferredModel {
    pub epoch_length: u64,
    pub buffered: Option<OrderedExecutionBlock>,
    pub running: Option<RunningModel>,
    pub completed: Seq<DeferredExecutionResult>,
    pub stopped: bool,
}

impl View for DeferredExecutor {
    type V = DeferredModel;

    closed spec fn view(&self) -> DeferredModel {
        DeferredModel {
            epoch_length: self.settings.epoch_length(),
            buffered: self.buffered,
            running: match self.running {
                None => None,
                Some(block) => Some(
                    RunningModel {
                        height: block.height,
                        consensus_block_id: block.consensus_block_id,
                        transactions: match block.transactions {
                            None => None,
                            Some(list) => Some(list@),
                        },
                    },
                ),
            },
            completed: self.completed@,
            stopped: self.stopped,
        }
    }
}

/// A stage before its first block.
pub open spec fn idle_stage(epoch_length: u64) -> DeferredModel {
    DeferredModel {
        epoch_length,
        buffered: None,
        running: None,
        completed: Seq::empty(),
        stopped: false,
    }
}

/// What submitting a block to a stage gives.
pub open spec fn submission(stage: DeferredModel, block: OrderedExecutionBlock) -> Result<
    (),
    DeferredExecutionError,
> {
    if block.transaction_ids@.len() != block.transactions@.len() {
        Err(DeferredExecutionError::TransactionCountMismatch)
    } else if stage.stopped {
        Err(DeferredExecutionError::WorkerStopped)
    } else if stage.buffered is Some {
        Err(DeferredExecutionError::LagLimitReached)
    } else {
        Ok(())
    }
}

/// The stage after a block was submitted to it.
pub open spec fn after_submission(stage: DeferredModel, block: OrderedExecutionBlock) -> DeferredModel {
    if submission(stage, block) is Ok {
        DeferredModel { buffered: Some(block), ..stage }
    } else {
        stage
    }
}

/// The block that an idle worker would begin with.
pub open spec fn next_to_run(stage: DeferredModel) -> Option<OrderedExecutionBlock> {
    if stage.stopped || stage.running is Some {
        None
    } else {
        stage.buffered
    }
}

/// The stage after its worker looked for a block.
pub open spec fn after_begin(stage: DeferredModel) -> DeferredModel {
    match next_to_run(stage) {
        None => stage,
        Some(block) => DeferredModel {
            buffered: None,
            running: Some(
                RunningModel {
                    height: block.height,
                    consensus_block_id: block.consensus_block_id,
                    transactions: Some(block.transactions@),
                },
            ),
            ..stage
        },
    }
}

/// Whether the running block waits for its epoch.
pub open spec fn awaits_epoch(stage: DeferredModel) -> bool {
    stage.running matches Some(block) && block.transactions is Some
}

/// Whether the transactions of the running block are being executed.
pub open spec fn awaits_execution(stage: DeferredModel) -> bool {
    stage.running matches Some(block) && block.transactions is None
}

/// The stage after its running block was done.
pub open spec fn after_report(
    stage: DeferredModel,
    report: (Result<BlockExecutionResult, ExecutionError>, Option<Vec<u8>>),
) -> DeferredModel {
    let block = stage.running.unwrap();
    DeferredModel {
        running: None,
        completed: stage.completed.push(
            DeferredExecutionResult {
                height: block.height,
                consensus_block_id: block.consensus_block_id,
                result: report.0,
                state_snapshot: report.1,
            },
        ),
        ..stage
    }
}

/// The stage after its worker reported whether state reached the epoch of the
/// running block.
pub open spec fn after_epoch(stage: DeferredModel, advanced: Result<(), String>) -> DeferredModel {
    if !awaits_epoch(stage) {
        stage
    } else {
        match advanced {
            Ok(()) => DeferredModel {
                running: Some(RunningModel { transactions: None, ..stage.running.unwrap() }),
                ..stage
            },
            Err(reason) => after_report(
                stage,
                (Err(ExecutionError::EpochAdvance(reason)), None),
            ),
        }
    }
}

/// The stage after its worker reported what executing the running block gave.
pub open spec fn after_execution(
    stage: DeferredModel,
    executed: Result<BlockExecutionResult, ExecutionError>,
    snapshot: Result<Vec<u8>, String>,
) -> DeferredModel {
    if awaits_execution(stage) {
        after_report(stage, reported(executed, snapshot))
    } else {
        stage
    }
}

/// The stage after its first result was taken, where there is one.
pub open spec fn after_poll(stage: DeferredModel) -> DeferredModel {
    if stage.completed.len() == 0 {
        stage
    } else {
        DeferredModel { completed: stage.completed.skip(1), ..stage }
    }
}

impl DeferredExecutor {
    /// Starts a stage with a one-block ordering buffer.
    ///
    /// `blocks_per_epoch` deterministically maps each block's height to its epoch
    /// (`height / blocks_per_epoch`); before a block's transactions run, state
    /// advances to that epoch.
    ///
    /// # Errors
    ///
    /// Rejects epochs without blocks, then a pool without workers.
    pub fn new(worker_count: usize, blocks_per_epoch: u64) -> (result: Result<Self, ExecutionError>)
        ensures
            match result {
                Ok(stage) => blocks_per_epoch > 0 && worker_count > 0 && stage@ == idle_stage(
                    blocks_per_epoch,
                ) && stage.workers() == worker_count,
                Err(ExecutionError::SchedulerInitialization(reason)) => if blocks_per_epoch == 0 {
                    reason@ == "blocks per epoch must be greater than zero"@
                } else {
                    worker_count == 0 && reason@ == "worker count must be greater than zero"@
                },
                Err(_) => false,
            },
    {
        let settings = match DeferredSettings::new(worker_count, blocks_per_epoch) {
            Ok(settings) => settings,
            Err(error) => {
                return Err(error);
            },
        };
        let stage = DeferredExecutor {
            settings,
            buffered: None,
            running: None,
            completed: Vec::new(),
            stopped: false,
        };
        assert(stage@ =~= idle_stage(blocks_per_epoch));
        Ok(stage)
    }

    /// How many workers speculate.
    pub closed spec fn workers(&self) -> usize {
        self.settings.workers()
    }

    /// The number of workers.
    pub fn worker_count(&self) -> (count: usize)
        ensures
            count == self.workers(),
            count > 0,
    {
        self.settings.worker_count()
    }

    /// Enqueues finalized order without waiting for execution.
    ///
    /// # Errors
    ///
    /// Rejects payload mismatches, a stopped worker, or a full one-block buffer.
    pub fn submit(&mut self, block: OrderedExecutionBlock) -> (result: Result<
        (),
        DeferredExecutionError,
    >)
        ensures
            result == submission(old(self)@, block),
            final(self)@ == after_submission(old(self)@, block),
            final(self).workers() == old(self).workers(),
    {
        if block.transaction_ids.len() != block.transactions.len() {
            return Err(DeferredExecutionError::TransactionCountMismatch);
        }
        if self.stopped {
            return Err(DeferredExecutionError::WorkerStopped);
        }
        if self.buffered.is_some() {
            return Err(DeferredExecutionError::LagLimitReached);
        }
        self.buffered = Some(block);
        Ok(())
    }

    /// Begins with the next block, where the worker is idle and there is one: the
    /// epoch that state has to reach first.
    pub fn begin(&mut self) -> (epoch: Option<Epoch>)
        ensures
            match next_to_run(old(self)@) {
                Some(block) => epoch == Some((block.height / old(self)@.epoch_length) as u64)
                    && epoch.unwrap() * old(self)@.epoch_length <= block.height < (epoch.unwrap()
                    + 1) * old(self)@.epoch_length,
                None => epoch is None,
            },
            final(self)@ == after_begin(old(self)@),
            final(self).workers() == old(self).workers(),
    {
        if self.stopped || self.running.is_some() {
            return None;
        }
        match self.buffered.take() {
            None => None,
            Some(block) => {
                let epoch: Epoch = self.settings.target_epoch(block.height);
                self.running = Some(
                    RunningBlock {
                        height: block.height,
                        consensus_block_id: block.consensus_block_id,
                        transactions: Some(block.transactions),
                    },
                );
                Some(epoch)
            },
        }
    }

    /// Hears whether state reached the epoch of the running block: its transactions
    /// where it did; where it did not, the block is done and has failed.
    pub fn epoch_advanced(&mut self, advanced: Result<(), String>) -> (transactions: Option<
        Vec<ExecutableTransaction>,
    >)
        ensures
            match transactions {
                Some(list) => awaits_epoch(old(self)@) && advanced is Ok && Some(list@) == old(
                    self,
                )@.running.unwrap().transactions,
                None => !(awaits_epoch(old(self)@) && advanced is Ok),
            },
            final(self)@ == after_epoch(old(self)@, advanced),
            final(self).workers() == old(self).workers(),
    {
        match self.running.take() {
            None => None,
            Some(block) => match block.transactions {
                None => {
                    self.running = Some(block);
                    None
                },
                Some(list) => match advanced {
                    Ok(()) => {
                        self.running = Some(
                            RunningBlock {
                                height: block.height,
                                consensus_block_id: block.consensus_block_id,
                                transactions: None,
                            },
                        );
                        Some(list)
                    },
                    Err(reason) => {
                        self.completed.push(
                            DeferredExecutionResult {
                                height: block.height,
                                consensus_block_id: block.consensus_block_id,
                                result: Err(ExecutionError::EpochAdvance(reason)),
                                state_snapshot: None,
                            },
                        );
                        None
                    },
                },
            },
        }
    }

    /// Hears what executing the transactions of the running block gave, with the
    /// state after it or why it could not be taken down.
    pub fn executed(
        &mut self,
        executed: Result<BlockExecutionResult, ExecutionError>,
        snapshot: Result<Vec<u8>, String>,
    )
        ensures
            final(self)@ == after_execution(old(self)@, executed, snapshot),
            final(self).workers() == old(self).workers(),
    {
        match self.running.take() {
            None => {},
            Some(block) => match block.transactions {
                Some(_) => {
                    self.running = Some(block);
                },
                None => {
                    let (result, state_snapshot) = match executed {
                        Err(error) => (Err(error), None),
                        Ok(done) => match snapshot {
                            Ok(bytes) => (Ok(done), Some(bytes)),
                            Err(reason) => (Err(ExecutionError::StateSnapshot(reason)), None),
                        },
                    };
                    self.completed.push(
                        DeferredExecutionResult {
                            height: block.height,
                            consensus_block_id: block.consensus_block_id,
                            result,
                            state_snapshot,
                        },
                    );
                },
            },
        }
    }

    /// Takes note that the worker is gone.
    pub fn stop(&mut self)
        ensures
            final(self)@ == (DeferredModel { stopped: true, ..old(self)@ }),
            final(self).workers() == old(self).workers(),
    {
        self.stopped = true;
    }

    /// Polls a completed block without blocking the consensus task.
    ///
    /// # Errors
    ///
    /// Returns an error if the worker stopped and no result is left.
    pub fn try_result(&mut self) -> (result: Result<
        Option<DeferredExecutionResult>,
        DeferredExecutionError,
    >)
        ensures
            match result {
                Ok(Some(block)) => old(self)@.completed.len() > 0 && block == old(self)@.completed[0],
                Ok(None) => old(self)@.completed.len() == 0 && !old(self)@.stopped,
                Err(error) => old(self)@.completed.len() == 0 && old(self)@.stopped && error
                    == DeferredExecutionError::WorkerStopped,
            },
            final(self)@ == after_poll(old(self)@),
            final(self).workers() == old(self).workers(),
    {
        if self.completed.len() > 0 {
            let block = self.completed.remove(0);
            assert(self.completed@ =~= old(self).completed@.skip(1));
            return Ok(Some(block));
        }
        if self.stopped {
            return Err(DeferredExecutionError::WorkerStopped);
        }
        Ok(None)
    }
}

/// What happens to a stage.
pub enum DeferredEvent {
    Submit(OrderedExecutionBlock),
    Begin,
    EpochAdvanced(Result<(), String>),
    Executed(Result<BlockExecutionResult, ExecutionError>, Result<Vec<u8>, String>),
    Stop,
    Poll,
}

/// A stage with the blocks that it accepted and the results that were taken from
/// it.
pub struct DeferredHistory {
    pub stage: DeferredModel,
    pub accepted: Seq<(u64, Hash256)>,
    pub delivered: Seq<DeferredExecutionResult>,
}

/// The history after one more event.
pub open spec fn happened(history: DeferredHistory, event: DeferredEvent) -> DeferredHistory {
    let stage = history.stage;
    match event {
        DeferredEvent::Submit(block) => DeferredHistory {
            stage: after_submission(stage, block),
            accepted: if submission(stage, block) is Ok {
                history.accepted.push((block.height, block.consensus_block_id))
            } else {
                history.accepted
            },
            ..history
        },
        DeferredEvent::Begin => DeferredHistory { stage: after_begin(stage), ..history },
        DeferredEvent::EpochAdvanced(advanced) => DeferredHistory {
            stage: after_epoch(stage, advanced),
            ..history
        },
        DeferredEvent::Executed(executed, snapshot) => DeferredHistory {
            stage: after_execution(stage, executed, snapshot),
            ..history
        },
        DeferredEvent::Stop => DeferredHistory {
            stage: DeferredModel { stopped: true, ..stage },
            ..history
        },
        DeferredEvent::Poll => DeferredHistory {
            stage: after_poll(stage),
            delivered: if stage.completed.len() > 0 {
                history.delivered.push(stage.completed[0])
            } else {
                history.delivered
            },
            ..history
        },
    }
}

/// The history of a stage after events.
pub open spec fn history_of(epoch_length: u64, events: Seq<DeferredEvent>) -> DeferredHistory
    decreases events.len(),
{
    if events.len() == 0 {
        DeferredHistory {
            stage: idle_stage(epoch_length),
            accepted: Seq::empty(),
            delivered: Seq::empty(),
        }
    } else {
        happened(history_of(epoch_length, events.drop_last()), events.last())
    }
}

/// The heights and blocks that results are of.
pub open spec fn blocks_of(results: Seq<DeferredExecutionResult>) -> Seq<(u64, Hash256)> {
    results.map_values(
        |result: DeferredExecutionResult| (result.height, result.consensus_block_id),
    )
}

/// The blocks of a stage that are not done: the running one before the buffered
/// one.
pub open spec fn unfinished(stage: DeferredModel) -> Seq<(u64, Hash256)> {
    let running = match stage.running {
        Some(block) => seq![(block.height, block.consensus_block_id)],
        None => Seq::empty(),
    };
    match stage.buffered {
        Some(block) => running.push((block.height, block.consensus_block_id)),
        None => running,
    }
}

/// Whether a state snapshot comes with every successful result, and with no other.
pub open spec fn snapshots_match(results: Seq<DeferredExecutionResult>) -> bool {
    forall|i: int|
        0 <= i < results.len() ==> ((#[trigger] results[i]).state_snapshot is Some
            <==> results[i].result is Ok)
}

/// Results come in the order in which blocks were submitted, each under the height
/// and the identity of its block, however submissions, the worker and polls
/// interleave; none is lost and none comes twice: what was accepted is what was
/// delivered, then what awaits delivery, then the running and the buffered block. A
/// snapshot comes with a successful result only.
pub proof fn law_results_follow_submissions(epoch_length: u64, events: Seq<DeferredEvent>)
    ensures
        ({
            let history = history_of(epoch_length, events);
            &&& history.accepted == blocks_of(history.delivered) + blocks_of(
                history.stage.completed,
            ) + unfinished(history.stage)
            &&& forall|i: int|
                0 <= i < history.delivered.len() ==> i < history.accepted.len() && (
                #[trigger] history.delivered[i]).height == history.accepted[i].0
                    && history.delivered[i].consensus_block_id == history.accepted[i].1
            &&& snapshots_match(history.delivered)
            &&& snapshots_match(history.stage.completed)
        }),
    decreases events.len(),
{
    let history = history_of(epoch_length, events);
    let all = blocks_of(history.delivered) + blocks_of(history.stage.completed) + unfinished(
        history.stage,
    );
    if events.len() > 0 {
        law_results_follow_submissions(epoch_length, events.drop_last());
        let before = history_of(epoch_length, events.drop_last());
        assert(history == happened(before, events.last()));
        let earlier = blocks_of(before.delivered) + blocks_of(before.stage.completed) + unfinished(
            before.stage,
        );
        assert(before.accepted == earlier);
        match events.last() {
            DeferredEvent::Submit(block) => {
                if submission(before.stage, block) is Ok {
                    assert(all =~= earlier.push((block.height, block.consensus_block_id)));
                }
            },
            DeferredEvent::Begin => {
                assert(unfinished(history.stage) =~= unfinished(before.stage));
            },
            DeferredEvent::EpochAdvanced(_) | DeferredEvent::Executed(_, _) => {
                assert(all =~= earlier);
            },
            DeferredEvent::Stop => {},
            DeferredEvent::Poll => {
                if before.stage.completed.len() > 0 {
                    assert(all =~= earlier);
                }
            },
        }
    }
    assert(all =~= history.accepted);
    assert forall|i: int| 0 <= i < history.delivered.len() implies i < history.accepted.len() && (
    #[trigger] history.delivered[i]).height == history.accepted[i].0
        && history.delivered[i].consensus_block_id == history.accepted[i].1 by {
        assert(all[i] == blocks_of(history.delivered)[i]);
    }
}

} // verus!
