//! Object- and account-local transaction queues with fair block selection.

use std::cmp::Ordering;

use vstd::prelude::*;

use crate::mempool::errors::MempoolError;
use crate::mempool::fees::Settlement;
use crate::ordered::{sorted_keys, strictly_sorted, OrderedMap, OrderedSet, SortKey};
use crate::types::{Address, Hash256, ObjectId};

verus! {

/// Congestion and ordering are isolated to one object or one sender account.
#[derive(Clone, Copy, Debug, PartialEq, Eq, PartialOrd, Ord)]
pub enum FeeScope {
    Object(ObjectId),
    Account(Address),
}

impl SortKey for FeeScope {
    open spec fn precedes(self, other: Self) -> bool {
        match (self, other) {
            (FeeScope::Object(left), FeeScope::Object(right)) => left.precedes(right),
            (FeeScope::Object(_), FeeScope::Account(_)) => true,
            (FeeScope::Account(_), FeeScope::Object(_)) => false,
            (FeeScope::Account(left), FeeScope::Account(right)) => left.precedes(right),
        }
    }

    proof fn precedes_irreflexive(x: Self) {
        match x {
            FeeScope::Object(id) => Hash256::precedes_irreflexive(id),
            FeeScope::Account(address) => Address::precedes_irreflexive(address),
        }
    }

    proof fn precedes_transitive(x: Self, y: Self, z: Self) {
        match (x, y, z) {
            (FeeScope::Object(a), FeeScope::Object(b), FeeScope::Object(c)) => {
                Hash256::precedes_transitive(a, b, c);
            },
            (FeeScope::Account(a), FeeScope::Account(b), FeeScope::Account(c)) => {
                Address::precedes_transitive(a, b, c);
            },
            _ => {},
        }
    }

    proof fn precedes_total(x: Self, y: Self) {
        match (x, y) {
            (FeeScope::Object(a), FeeScope::Object(b)) => Hash256::precedes_total(a, b),
            (FeeScope::Account(a), FeeScope::Account(b)) => Address::precedes_total(a, b),
            _ => {},
        }
    }

    fn is_before(&self, other: &Self) -> (before: bool) {
        match (self, other) {
            (FeeScope::Object(left), FeeScope::Object(right)) => left.is_before(right),
            (FeeScope::Object(_), FeeScope::Account(_)) => true,
            (FeeScope::Account(_), FeeScope::Object(_)) => false,
            (FeeScope::Account(left), FeeScope::Account(right)) => left.is_before(right),
        }
    }
}

/// Transaction metadata admitted by the localized market.
#[derive(Debug, PartialEq, Eq)]
pub struct SubmittedTransaction {
    pub id: Hash256,
    pub sender: Address,
    pub scope: FeeScope,
    pub touched_objects: OrderedSet<ObjectId>,
    pub compute_limit: u64,
    pub max_fee_per_compute: u128,
    pub priority_fee_per_compute: u128,
    pub arrival_sequence: u64,
    pub policy_data: Vec<u8>,
}

/// Accepted transaction with the local base price fixed at admission.
#[derive(Debug, PartialEq, Eq)]
pub struct PendingTransaction {
    pub transaction: SubmittedTransaction,
    pub local_base_fee_per_compute: u128,
}

impl PendingTransaction {
    /// Extracts just the fields that settling the fee needs.
    pub fn settlement(&self) -> (settlement: Settlement)
        ensures
            settlement == (Settlement {
                transaction_id: self.transaction.id,
                payer: self.transaction.sender,
                compute_limit: self.transaction.compute_limit,
                local_base_fee_per_compute: self.local_base_fee_per_compute,
                priority_fee_per_compute: self.transaction.priority_fee_per_compute,
            }),
    {
        Settlement {
            transaction_id: self.transaction.id,
            payer: self.transaction.sender,
            compute_limit: self.transaction.compute_limit,
            local_base_fee_per_compute: self.local_base_fee_per_compute,
            priority_fee_per_compute: self.transaction.priority_fee_per_compute,
        }
    }
}

/// Application-supplied deterministic ordering rule for one target scope.
pub trait OrderingPolicy: Send + Sync {
    /// The preferred order of two transactions.
    spec fn preference(&self, left: PendingTransaction, right: PendingTransaction) -> Ordering;

    /// Returns the preferred order. Implementations must be total and deterministic.
    fn compare(&self, left: &PendingTransaction, right: &PendingTransaction) -> (ordering: Ordering)
        ensures
            ordering == self.preference(*left, *right),
    ;
}

/// Higher tip first, then canonical arrival and identifier.
pub open spec fn priority_order(left: PendingTransaction, right: PendingTransaction) -> Ordering {
    let a = left.transaction;
    let b = right.transaction;
    if a.priority_fee_per_compute > b.priority_fee_per_compute {
        Ordering::Less
    } else if a.priority_fee_per_compute < b.priority_fee_per_compute {
        Ordering::Greater
    } else if a.arrival_sequence < b.arrival_sequence {
        Ordering::Less
    } else if a.arrival_sequence > b.arrival_sequence {
        Ordering::Greater
    } else if a.id.precedes(b.id) {
        Ordering::Less
    } else if b.id.precedes(a.id) {
        Ordering::Greater
    } else {
        Ordering::Equal
    }
}

/// Default priority order: higher tip first, then canonical arrival and ID.
#[derive(Clone, Copy, Debug)]
pub struct PriorityFeePolicy;

impl Default for PriorityFeePolicy {
    fn default() -> Self {
        PriorityFeePolicy
    }
}

impl OrderingPolicy for PriorityFeePolicy {
    open spec fn preference(&self, left: PendingTransaction, right: PendingTransaction) -> Ordering {
        priority_order(left, right)
    }

    fn compare(&self, left: &PendingTransaction, right: &PendingTransaction) -> (ordering: Ordering) {
        let a = &left.transaction;
        let b = &right.transaction;
        if a.priority_fee_per_compute > b.priority_fee_per_compute {
            Ordering::Less
        } else if a.priority_fee_per_compute < b.priority_fee_per_compute {
            Ordering::Greater
        } else if a.arrival_sequence < b.arrival_sequence {
            Ordering::Less
        } else if a.arrival_sequence > b.arrival_sequence {
            Ordering::Greater
        } else if a.id.is_before(&b.id) {
            Ordering::Less
        } else if b.id.is_before(&a.id) {
            Ordering::Greater
        } else {
            Ordering::Equal
        }
    }
}

/// Admission quote exposing only the transaction's own congestion scope.
#[derive(Clone, Copy, Debug, PartialEq, Eq, Structural)]
pub struct FeeQuote {
    pub local_base_fee_per_compute: u128,
    pub effective_fee_per_compute: u128,
}

/// Fair block selection result and deterministic work counter.
#[derive(Debug, PartialEq, Eq)]
pub struct BlockSelection {
    pub transactions: Vec<PendingTransaction>,
    pub scope_visits: usize,
}

/// The queues by scope, front first.
pub type Queues = Map<FeeScope, Seq<PendingTransaction>>;

/// The value of a market.
#[verifier::ext_equal]
pub struct MarketModel<P> {
    pub base_fee: u128,
    pub increment: u128,
    pub limit: usize,
    pub queues: Queues,
    pub policies: Map<FeeScope, P>,
    pub ids: Set<Hash256>,
}

/// The order that applies within a scope.
pub open spec fn scope_order<P: OrderingPolicy>(
    policies: Map<FeeScope, P>,
    scope: FeeScope,
    left: PendingTransaction,
    right: PendingTransaction,
) -> Ordering {
    if policies.contains_key(scope) {
        policies[scope].preference(left, right)
    } else {
        priority_order(left, right)
    }
}

/// The transactions waiting in a scope.
pub open spec fn queue_of(queues: Queues, scope: FeeScope) -> Seq<PendingTransaction> {
    if queues.contains_key(scope) {
        queues[scope]
    } else {
        Seq::empty()
    }
}

/// A queue holds transactions of its own scope, at least one, whose
/// identifiers are known to the market.
pub open spec fn sound_queue(
    scope: FeeScope,
    queue: Seq<PendingTransaction>,
    ids: Set<Hash256>,
) -> bool {
    &&& queue.len() > 0
    &&& forall|i: int|
        0 <= i < queue.len() ==> (#[trigger] queue[i]).transaction.scope == scope && ids.contains(
            queue[i].transaction.id,
        )
}

/// Every queue is sound, and no identifier waits twice.
pub open spec fn sound_market<P: OrderingPolicy>(market: MarketModel<P>) -> bool {
    &&& market.limit > 0
    &&& market.queues.dom().finite()
    &&& forall|scope: FeeScope| #[trigger]
        market.queues.contains_key(scope) ==> sound_queue(
            scope,
            market.queues[scope],
            market.ids,
        )
    &&& forall|left: FeeScope, i: int, right: FeeScope, j: int|
        #![trigger market.queues[left][i], market.queues[right][j]]
        market.queues.contains_key(left) && market.queues.contains_key(right) && 0 <= i
            < market.queues[left].len() && 0 <= j < market.queues[right].len()
            && market.queues[left][i].transaction.id == market.queues[right][j].transaction.id
            ==> left == right && i == j
}

/// What submitting a transaction gives.
pub open spec fn submit_result<P: OrderingPolicy>(market: MarketModel<P>, transaction: SubmittedTransaction) -> Result<
    FeeQuote,
    MempoolError,
> {
    let base = market.base_fee + market.increment * queue_of(
        market.queues,
        transaction.scope,
    ).len();
    let effective = base + transaction.priority_fee_per_compute;
    if transaction.scope matches FeeScope::Object(object)
        && !transaction.touched_objects@.contains(object) {
        Err(MempoolError::InvalidScope)
    } else if transaction.compute_limit == 0 {
        Err(MempoolError::ZeroComputeLimit)
    } else if market.ids.contains(transaction.id) {
        Err(MempoolError::DuplicateTransaction)
    } else if effective > u128::MAX {
        Err(MempoolError::FeeOverflow)
    } else if transaction.max_fee_per_compute < effective {
        Err(
            MempoolError::FeeCapTooLow {
                required: effective as u128,
                offered: transaction.max_fee_per_compute,
            },
        )
    } else {
        Ok(
            FeeQuote {
                local_base_fee_per_compute: base as u128,
                effective_fee_per_compute: effective as u128,
            },
        )
    }
}

/// The market after a transaction took its place in its scope's queue.
pub open spec fn with_pending<P: OrderingPolicy>(
    market: MarketModel<P>,
    pending: PendingTransaction,
    position: int,
) -> MarketModel<P> {
    let scope = pending.transaction.scope;
    MarketModel {
        queues: market.queues.insert(
            scope,
            queue_of(market.queues, scope).insert(position, pending),
        ),
        ids: market.ids.insert(pending.transaction.id),
        ..market
    }
}

/// Seen from a new transaction, the queue falls into those that come before
/// it, those that are level with it, and those that come after it.
pub open spec fn partitioned<P: OrderingPolicy>(
    policies: Map<FeeScope, P>,
    scope: FeeScope,
    queue: Seq<PendingTransaction>,
    pending: PendingTransaction,
) -> bool {
    forall|i: int, j: int| #![trigger queue[i], queue[j]]
        0 <= i < j < queue.len() ==> {
            &&& scope_order(policies, scope, queue[i], pending) == Ordering::Greater ==> scope_order(
                policies,
                scope,
                queue[j],
                pending,
            ) == Ordering::Greater
            &&& scope_order(policies, scope, queue[j], pending) == Ordering::Less ==> scope_order(
                policies,
                scope,
                queue[i],
                pending,
            ) == Ordering::Less
        }
}

/// A place for a new transaction: nothing before it comes after it, and
/// nothing behind it comes before it.
pub open spec fn fits_at<P: OrderingPolicy>(
    policies: Map<FeeScope, P>,
    scope: FeeScope,
    queue: Seq<PendingTransaction>,
    pending: PendingTransaction,
    position: int,
) -> bool {
    &&& forall|i: int|
        0 <= i < position ==> scope_order(policies, scope, #[trigger] queue[i], pending)
            != Ordering::Greater
    &&& forall|i: int|
        position <= i < queue.len() ==> scope_order(policies, scope, #[trigger] queue[i], pending)
            != Ordering::Less
}

/// No transaction of the queue comes after a later one.
pub open spec fn queue_ordered<P: OrderingPolicy>(
    policies: Map<FeeScope, P>,
    scope: FeeScope,
    queue: Seq<PendingTransaction>,
) -> bool {
    forall|i: int, j: int| #![trigger queue[i], queue[j]]
        0 <= i < j < queue.len() ==> scope_order(policies, scope, queue[i], queue[j])
            != Ordering::Greater
}

/// An ordering rule is total: reversing a comparison reverses its outcome, and
/// coming before or being level carries over.
pub open spec fn total_rule<P: OrderingPolicy>(
    policies: Map<FeeScope, P>,
    scope: FeeScope,
) -> bool {
    &&& forall|a: PendingTransaction, b: PendingTransaction|
        (#[trigger] scope_order(policies, scope, a, b) == Ordering::Greater) <==> scope_order(
            policies,
            scope,
            b,
            a,
        ) == Ordering::Less
    &&& forall|a: PendingTransaction, b: PendingTransaction, c: PendingTransaction|
        #![trigger scope_order(policies, scope, a, b), scope_order(policies, scope, b, c)]
        scope_order(policies, scope, a, b) != Ordering::Greater && scope_order(
            policies,
            scope,
            b,
            c,
        ) != Ordering::Greater ==> scope_order(policies, scope, a, c) != Ordering::Greater
    &&& forall|a: PendingTransaction, b: PendingTransaction, c: PendingTransaction|
        #![trigger scope_order(policies, scope, a, b), scope_order(policies, scope, b, c)]
        scope_order(policies, scope, a, b) != Ordering::Greater && scope_order(
            policies,
            scope,
            b,
            c,
        ) == Ordering::Less ==> scope_order(policies, scope, a, c) == Ordering::Less
}

/// What a visit of a scope in a round of the selection takes.
pub open spec fn taken_at(queues: Queues, scope: FeeScope, limit: nat, round: nat) -> Option<
    PendingTransaction,
> {
    if round < limit && round < queue_of(queues, scope).len() {
        Some(queue_of(queues, scope)[round as int])
    } else {
        None
    }
}

/// What all complete rounds before `round` and the first `count` visits in it take.
pub open spec fn picks(
    scopes: Seq<FeeScope>,
    queues: Queues,
    limit: nat,
    round: nat,
    count: nat,
) -> Seq<PendingTransaction>
    decreases round, count,
{
    if count > 0 {
        let earlier = picks(scopes, queues, limit, round, (count - 1) as nat);
        match taken_at(queues, scopes[count - 1], limit, round) {
            Some(pending) => earlier.push(pending),
            None => earlier,
        }
    } else if round > 0 {
        picks(scopes, queues, limit, (round - 1) as nat, scopes.len())
    } else {
        Seq::empty()
    }
}

/// The block that round-robin selection makes: at most `maximum` of what the
/// scopes in order give round by round, each at most `limit` times.
pub open spec fn block_of(queues: Queues, limit: nat, maximum: nat) -> Seq<PendingTransaction> {
    let scopes = sorted_keys(queues.dom());
    let all = picks(scopes, queues, limit, limit, 0);
    all.take(
        if maximum < all.len() {
            maximum as int
        } else {
            all.len() as int
        },
    )
}

/// No scope has anything for a round.
pub open spec fn barren(scopes: Seq<FeeScope>, queues: Queues, limit: nat, round: nat) -> bool {
    forall|j: int|
        0 <= j < scopes.len() ==> taken_at(queues, #[trigger] scopes[j], limit, round) is None
}

/// The visit at which the selection ends: the one that fills the block, or the
/// last one of the first round that gives nothing.
pub open spec fn ends_at(
    scopes: Seq<FeeScope>,
    queues: Queues,
    limit: nat,
    maximum: nat,
    round: nat,
    count: nat,
) -> bool {
    let taken = picks(scopes, queues, limit, round, count);
    &&& count <= scopes.len()
    &&& if taken.len() == maximum {
        if maximum == 0 {
            round == 0 && count == 0
        } else {
            count > 0 && taken_at(queues, scopes[count - 1], limit, round) is Some
        }
    } else {
        &&& taken.len() < maximum
        &&& count == scopes.len()
        &&& barren(scopes, queues, limit, round)
        &&& forall|earlier: nat|
            earlier < round ==> !#[trigger] barren(scopes, queues, limit, earlier)
    }
}

/// The transactions of a scope.
pub open spec fn in_scope(scope: FeeScope) -> spec_fn(PendingTransaction) -> bool {
    |pending: PendingTransaction| pending.transaction.scope == scope
}

/// The identifiers of transactions, in order.
pub open spec fn ids_of(list: Seq<PendingTransaction>) -> Seq<Hash256> {
    list.map_values(|pending: PendingTransaction| pending.transaction.id)
}

/// The transactions that stay when some identifiers are removed.
pub open spec fn unlisted(ids: Set<Hash256>) -> spec_fn(PendingTransaction) -> bool {
    |pending: PendingTransaction| !ids.contains(pending.transaction.id)
}

/// The queues without the given transactions; a queue left empty is dropped.
pub open spec fn queues_without(queues: Queues, ids: Set<Hash256>) -> Queues {
    Map::new(
        |scope: FeeScope|
            queues.contains_key(scope) && queues[scope].filter(unlisted(ids)).len() > 0,
        |scope: FeeScope| queues[scope].filter(unlisted(ids)),
    )
}

/// The queues by value.
pub open spec fn queue_values(queues: Map<FeeScope, Vec<PendingTransaction>>) -> Queues {
    queues.map_values(|queue: Vec<PendingTransaction>| queue@)
}

/// Object/account-local queues with per-scope capacity in each block.
pub struct LocalizedMempool<P: OrderingPolicy> {
    base_fee_per_compute: u128,
    congestion_increment: u128,
    per_scope_block_limit: usize,
    queues: OrderedMap<FeeScope, Vec<PendingTransaction>>,
    policies: OrderedMap<FeeScope, P>,
    transaction_ids: OrderedSet<Hash256>,
}

impl<P: OrderingPolicy> View for LocalizedMempool<P> {
    type V = MarketModel<P>;

    closed spec fn view(&self) -> MarketModel<P> {
        MarketModel {
            base_fee: self.base_fee_per_compute,
            increment: self.congestion_increment,
            limit: self.per_scope_block_limit,
            queues: queue_values(self.queues@),
            policies: self.policies@,
            ids: self.transaction_ids@,
        }
    }
}

/// The order that a registered rule, or the default one, gives.
fn compare_in_scope<P: OrderingPolicy>(
    policy: Option<&P>,
    left: &PendingTransaction,
    right: &PendingTransaction,
) -> (ordering: Ordering)
    ensures
        ordering == (match policy {
            Some(rule) => rule.preference(*left, *right),
            None => priority_order(*left, *right),
        }),
{
    match policy {
        Some(rule) => rule.compare(left, right),
        None => PriorityFeePolicy.compare(left, right),
    }
}

/// Checks that an object scope is one of the touched objects.
fn validate_scope(transaction: &SubmittedTransaction) -> (result: Result<(), MempoolError>)
    ensures
        result == (if transaction.scope matches FeeScope::Object(object)
            && !transaction.touched_objects@.contains(object) {
            Err::<(), MempoolError>(MempoolError::InvalidScope)
        } else {
            Ok(())
        }),
{
    if let FeeScope::Object(object) = transaction.scope {
        if !transaction.touched_objects.contains(&object) {
            return Err(MempoolError::InvalidScope);
        }
    }
    Ok(())
}

impl<P: OrderingPolicy> LocalizedMempool<P> {
    /// The market is sound.
    pub open spec fn wf(&self) -> bool {
        sound_market(self@)
    }

    /// Creates a localized market.
    ///
    /// # Errors
    ///
    /// Rejects a zero per-scope block limit.
    pub fn new(
        base_fee_per_compute: u128,
        congestion_increment: u128,
        per_scope_block_limit: usize,
    ) -> (result: Result<Self, MempoolError>)
        ensures
            match result {
                Ok(market) => per_scope_block_limit > 0 && market.wf() && market@ == (MarketModel::<P> {
                    base_fee: base_fee_per_compute,
                    increment: congestion_increment,
                    limit: per_scope_block_limit,
                    queues: Map::empty(),
                    policies: Map::empty(),
                    ids: Set::empty(),
                }),
                Err(error) => per_scope_block_limit == 0 && error == MempoolError::ZeroScopeLimit,
            },
    {
        if per_scope_block_limit == 0 {
            return Err(MempoolError::ZeroScopeLimit);
        }
        let market = LocalizedMempool {
            base_fee_per_compute,
            congestion_increment,
            per_scope_block_limit,
            queues: OrderedMap::new(),
            policies: OrderedMap::new(),
            transaction_ids: OrderedSet::new(),
        };
        assert(market@.queues =~= Map::<FeeScope, Seq<PendingTransaction>>::empty());
        assert(market@.queues.dom() =~= Set::<FeeScope>::empty());
        Ok(market)
    }

    /// Registers one application ordering hook for its object/account scope.
    ///
    /// # Errors
    ///
    /// Rejects replacement so policy changes require an explicit epoch transition.
    pub fn register_policy(&mut self, scope: FeeScope, policy: P) -> (result:
        Result<(), MempoolError>)
        ensures
            match result {
                Ok(()) => !old(self)@.policies.contains_key(scope) && final(self)@ == (MarketModel {
                    policies: old(self)@.policies.insert(scope, policy),
                    ..old(self)@
                }),
                Err(error) => old(self)@.policies.contains_key(scope) && error
                    == MempoolError::PolicyAlreadyRegistered && final(self)@ == old(self)@,
            },
            old(self).wf() ==> final(self).wf(),
    {
        if self.policies.contains_key(&scope) {
            return Err(MempoolError::PolicyAlreadyRegistered);
        }
        let _ = self.policies.insert(scope, policy);
        Ok(())
    }

    /// Prices and inserts a transaction only within its declared local scope.
    ///
    /// # Errors
    ///
    /// Rejects invalid scope declarations, duplicate IDs, zero compute limits,
    /// overflow, or a max price below the local base plus priority fee.
    pub fn submit(&mut self, transaction: SubmittedTransaction) -> (result: Result<
        FeeQuote,
        MempoolError,
    >)
        requires
            old(self).wf(),
        ensures
            final(self).wf(),
            result == submit_result(old(self)@, transaction),
            match result {
                Err(_) => final(self)@ == old(self)@,
                Ok(quote) => {
                    let pending = PendingTransaction {
                        transaction,
                        local_base_fee_per_compute: quote.local_base_fee_per_compute,
                    };
                    let queue = queue_of(old(self)@.queues, transaction.scope);
                    exists|position: int|
                        {
                            &&& 0 <= position <= queue.len()
                            &&& final(self)@ == #[trigger] with_pending(
                                old(self)@,
                                pending,
                                position,
                            )
                            &&& partitioned(
                                old(self)@.policies,
                                transaction.scope,
                                queue,
                                pending,
                            ) ==> fits_at(
                                old(self)@.policies,
                                transaction.scope,
                                queue,
                                pending,
                                position,
                            )
                        }
                },
            },
    {
        match validate_scope(&transaction) {
            Ok(()) => {},
            Err(error) => {
                return Err(error);
            },
        }
        if transaction.compute_limit == 0 {
            return Err(MempoolError::ZeroComputeLimit);
        }
        if self.transaction_ids.contains(&transaction.id) {
            return Err(MempoolError::DuplicateTransaction);
        }
        let ghost before = self@;
        let scope = transaction.scope;
        let quote = match self.quote(scope, transaction.priority_fee_per_compute) {
            Some(quote) => quote,
            None => {
                return Err(MempoolError::FeeOverflow);
            },
        };
        if transaction.max_fee_per_compute < quote.effective_fee_per_compute {
            return Err(
                MempoolError::FeeCapTooLow {
                    required: quote.effective_fee_per_compute,
                    offered: transaction.max_fee_per_compute,
                },
            );
        }
        let ghost submitted = transaction;
        let _ = self.transaction_ids.insert(transaction.id);
        let pending = PendingTransaction {
            transaction,
            local_base_fee_per_compute: quote.local_base_fee_per_compute,
        };
        let ghost value = pending;
        let mut queue: Vec<PendingTransaction> = match self.queues.remove(&scope) {
            Some(queue) => queue,
            None => Vec::new(),
        };
        let ghost waiting = queue@;
        assert(waiting =~= queue_of(before.queues, scope));
        let position: usize = self.insertion_point(scope, &queue, &pending);
        queue.insert(position, pending);
        let _ = self.queues.insert(scope, queue);
        proof {
            let after = with_pending(before, value, 0 + position);
            assert(self@.queues =~= after.queues);
            assert(self@ =~= after);
            lemma_sound_after_submit(before, value, 0 + position);
        }
        Ok(quote)
    }

    /// The price that a scope's depth and a tip make, where it fits.
    fn quote(&self, scope: FeeScope, priority_fee_per_compute: u128) -> (quote: Option<FeeQuote>)
        ensures
            ({
                let base = self@.base_fee + self@.increment * queue_of(self@.queues, scope).len();
                let effective = base + priority_fee_per_compute;
                quote == (if effective > u128::MAX {
                    None
                } else {
                    Some(
                        FeeQuote {
                            local_base_fee_per_compute: base as u128,
                            effective_fee_per_compute: effective as u128,
                        },
                    )
                })
            }),
    {
        let depth: u128 = self.scope_depth(scope) as u128;
        let increment: u128 = match self.congestion_increment.checked_mul(depth) {
            Some(increment) => increment,
            None => {
                return None;
            },
        };
        let base: u128 = match self.base_fee_per_compute.checked_add(increment) {
            Some(base) => base,
            None => {
                return None;
            },
        };
        match base.checked_add(priority_fee_per_compute) {
            Some(effective) => Some(
                FeeQuote {
                    local_base_fee_per_compute: base,
                    effective_fee_per_compute: effective,
                },
            ),
            None => None,
        }
    }

    /// A place for a transaction in its scope's queue.
    fn insertion_point(
        &self,
        scope: FeeScope,
        queue: &Vec<PendingTransaction>,
        pending: &PendingTransaction,
    ) -> (position: usize)
        ensures
            position <= queue@.len(),
            partitioned(self@.policies, scope, queue@, *pending) ==> fits_at(
                self@.policies,
                scope,
                queue@,
                *pending,
                0 + position,
            ),
    {
        let policy = self.policies.get(&scope);
        let ghost policies = self@.policies;
        let mut low: usize = 0;
        let mut high: usize = queue.len();
        while low < high
            invariant
                low <= high <= queue@.len(),
                policies == self@.policies,
                policy == (if policies.contains_key(scope) {
                    Some(&policies[scope])
                } else {
                    None
                }),
                partitioned(policies, scope, queue@, *pending) ==> {
                    &&& forall|i: int|
                        0 <= i < low ==> scope_order(policies, scope, #[trigger] queue@[i], *pending)
                            != Ordering::Greater
                    &&& forall|i: int|
                        high <= i < queue@.len() ==> scope_order(
                            policies,
                            scope,
                            #[trigger] queue@[i],
                            *pending,
                        ) != Ordering::Less
                },
            decreases high - low,
        {
            let middle: usize = low + (high - low) / 2;
            let ordering = compare_in_scope(policy, &queue[middle], pending);
            assert(ordering == scope_order(policies, scope, queue@[0 + middle], *pending));
            match ordering {
                Ordering::Less => {
                    low = middle + 1;
                },
                Ordering::Greater => {
                    high = middle;
                },
                Ordering::Equal => {
                    return middle;
                },
            }
        }
        low
    }

    /// Selects scopes round-robin and caps each scope's contribution.
    ///
    /// A hot queue therefore cannot increase the number of queue visits before
    /// an unrelated scope is considered.
    pub fn select_block(&mut self, maximum_transactions: usize) -> (selection: BlockSelection)
        requires
            old(self).wf(),
        ensures
            final(self).wf(),
            selection.transactions@ == block_of(
                old(self)@.queues,
                old(self)@.limit as nat,
                maximum_transactions as nat,
            ),
            exists|round: nat, count: nat| #[trigger]
                ends_at(
                    sorted_keys(old(self)@.queues.dom()),
                    old(self)@.queues,
                    old(self)@.limit as nat,
                    maximum_transactions as nat,
                    round,
                    count,
                ) && selection.scope_visits == at_most_usize(
                    round * old(self)@.queues.dom().len() + count,
                ),
            final(self)@.base_fee == old(self)@.base_fee,
            final(self)@.increment == old(self)@.increment,
            final(self)@.limit == old(self)@.limit,
            final(self)@.policies == old(self)@.policies,
            final(self)@.ids == old(self)@.ids.difference(
                ids_of(selection.transactions@).to_set(),
            ),
            forall|scope: FeeScope|
                queue_of(old(self)@.queues, scope) == selection.transactions@.filter(
                    in_scope(scope),
                ) + #[trigger] queue_of(final(self)@.queues, scope),
    {
        let scopes = self.queues.keys();
        let ghost before = self@;
        let ghost list = scopes@;
        let ghost limit = self@.limit as nat;
        let ghost maximum = maximum_transactions as nat;
        proof {
            assert(before.queues.dom() =~= self.queues@.dom());
        }
        let mut counts: Vec<usize> = Vec::new();
        while counts.len() < scopes.len()
            invariant
                counts@.len() <= scopes@.len(),
                forall|j: int| 0 <= j < counts@.len() ==> counts@[j] == 0,
            decreases scopes@.len() - counts@.len(),
        {
            counts.push(0);
        }
        let mut selected: Vec<PendingTransaction> = Vec::new();
        let mut scope_visits: usize = 0;
        let ghost mut round: nat = 0;
        let ghost mut visited: nat = 0;
        proof {
            assert(list.take(0).len() == 0);
            assert forall|scope: FeeScope| #[trigger] before.queues.contains_key(scope) implies
                before.queues[scope].len() > 0 && before.queues[scope].skip(0)
                == before.queues[scope] by {
                assert(sound_queue(scope, before.queues[scope], before.ids));
                assert(before.queues[scope].skip(0) =~= before.queues[scope]);
            }
            assert(remaining(before.queues, list, limit, 0, 0) =~= before.queues);
            assert(ids_of(selected@).to_set() =~= Set::<Hash256>::empty());
            assert(before.ids.difference(ids_of(selected@).to_set()) =~= before.ids);
        }
        let mut running = true;
        while running && selected.len() < maximum_transactions
            invariant
                sound_market(before),
                before.limit == self.per_scope_block_limit,
                limit == before.limit,
                maximum == maximum_transactions,
                list == scopes@,
                strictly_sorted(list),
                forall|scope: FeeScope| list.contains(scope) <==> before.queues.contains_key(scope),
                counts@.len() == list.len(),
                visited <= list.len(),
                selected@ == picks(list, before.queues, limit, round, visited),
                selected@.len() <= maximum,
                scope_visits == at_most_usize(round * list.len() + visited),
                self@.base_fee == before.base_fee,
                self@.increment == before.increment,
                self@.policies == before.policies,
                self@.queues == remaining(before.queues, list, limit, round, visited),
                self@.ids == before.ids.difference(ids_of(selected@).to_set()),
                forall|j: int| #![trigger counts@[j]]
                    0 <= j < list.len() ==> counts@[j] == progress(
                        queue_of(before.queues, list[j]).len(),
                        limit,
                        round + if j < visited { 1nat } else { 0 },
                    ),
                forall|earlier: nat|
                    earlier < round ==> !#[trigger] barren(list, before.queues, limit, earlier),
                running && selected@.len() < maximum ==> visited == 0,
                !running ==> visited == list.len() && barren(list, before.queues, limit, round)
                    && selected@.len() < maximum,
                selected@.len() == maximum && maximum > 0 ==> visited > 0 && taken_at(
                    before.queues,
                    list[visited - 1],
                    limit,
                    round,
                ) is Some,
                maximum == 0 ==> round == 0 && visited == 0,
            decreases (if running { 1int } else { 0 }), maximum - selected@.len(),
        {
            let ghost start = selected@.len();
            let mut progressed = false;
            let mut index: usize = 0;
            while index < scopes.len() && selected.len() < maximum_transactions
                invariant
                    sound_market(before),
                    before.limit == self.per_scope_block_limit,
                    limit == before.limit,
                    maximum == maximum_transactions,
                    list == scopes@,
                    strictly_sorted(list),
                    forall|scope: FeeScope|
                        list.contains(scope) <==> before.queues.contains_key(scope),
                    counts@.len() == list.len(),
                    index <= list.len(),
                    selected@ == picks(list, before.queues, limit, round, index as nat),
                    start <= selected@.len() <= maximum,
                    start < maximum,
                    progressed == (selected@.len() > start),
                    scope_visits == at_most_usize(round * list.len() + index as nat),
                    self@.base_fee == before.base_fee,
                    self@.increment == before.increment,
                    self@.policies == before.policies,
                    self@.queues == remaining(before.queues, list, limit, round, index as nat),
                    self@.ids == before.ids.difference(ids_of(selected@).to_set()),
                    forall|j: int| #![trigger counts@[j]]
                        0 <= j < list.len() ==> counts@[j] == progress(
                            queue_of(before.queues, list[j]).len(),
                            limit,
                            round + if j < index { 1nat } else { 0 },
                        ),
                    !progressed ==> forall|j: int|
                        0 <= j < index ==> taken_at(before.queues, #[trigger] list[j], limit, round)
                            is None,
                    progressed ==> !barren(list, before.queues, limit, round),
                    selected@.len() == maximum ==> index > 0 && taken_at(
                        before.queues,
                        list[index - 1],
                        limit,
                        round,
                    ) is Some,
                decreases list.len() - index,
            {
                let scope = scopes[index];
                let count: usize = counts[index];
                proof {
                    assert(list.contains(list[index as int]));
                    assert(count == progress(queue_of(before.queues, scope).len(), limit, round));
                    lemma_remaining_step(before.queues, list, limit, round, index as nat);
                }
                scope_visits = scope_visits.saturating_add(1);
                let available = count < self.per_scope_block_limit && self.queues.contains_key(
                    &scope,
                );
                proof {
                    assert(self@.queues.contains_key(scope) == self.queues@.contains_key(scope));
                    assert(available == (taken_at(before.queues, scope, limit, round) is Some));
                }
                let ghost queues_before = self@.queues;
                let ghost stored = self.queues@;
                if available {
                    let ghost selected_before = selected@;
                    let mut queue: Vec<PendingTransaction> = match self.queues.remove(&scope) {
                        Some(queue) => queue,
                        None => Vec::new(),
                    };
                    assert(queue@ == queues_before[scope]);
                    let pending = queue.remove(0);
                    let ghost rest = queue@;
                    let _ = self.transaction_ids.remove(&pending.transaction.id);
                    let ghost id = pending.transaction.id;
                    if queue.len() > 0 {
                        let _ = self.queues.insert(scope, queue);
                    }
                    selected.push(pending);
                    counts.set(index, count + 1);
                    progressed = true;
                    proof {
                        let left = remaining(
                            before.queues,
                            list,
                            limit,
                            round,
                            (index + 1) as nat,
                        );
                        assert(rest =~= before.queues[scope].skip(count + 1));
                        let now = self@.queues;
                        assert forall|other: FeeScope|
                            #![trigger now.dom().contains(other)]
                            #![trigger left.dom().contains(other)]
                            now.dom().contains(other) == left.dom().contains(other) && (
                            now.dom().contains(other) ==> now[other] == left[other]) by {
                            assert(self@.queues.contains_key(other) == self.queues@.contains_key(
                                other,
                            ));
                            assert(queues_before.contains_key(other) == stored.contains_key(other));
                            if other == scope {
                                assert(stored.contains_key(scope));
                                assert(self.queues@.contains_key(scope) == (rest.len() > 0));
                                assert(left.contains_key(scope) == (count + 1
                                    < before.queues[scope].len()));
                                if rest.len() > 0 {
                                    assert(self@.queues[scope] == rest);
                                    assert(left[scope] == before.queues[scope].skip(count + 1));
                                }
                            } else {
                                assert(self.queues@.contains_key(other) ==> self.queues@[other]
                                    == stored[other]);
                                assert(given_by(
                                    before.queues,
                                    list,
                                    limit,
                                    round,
                                    (index + 1) as nat,
                                    other,
                                ) == given_by(
                                    before.queues,
                                    list,
                                    limit,
                                    round,
                                    index as nat,
                                    other,
                                ));
                                if stored.contains_key(other) {
                                    assert(self@.queues[other] == queues_before[other]);
                                    assert(queues_before[other] == left[other]);
                                }
                            }
                        }
                        assert(now =~= left);
                        assert(ids_of(selected@) =~= ids_of(selected_before).push(id));
                        lemma_push_set(ids_of(selected_before), id);
                        assert(self@.ids =~= before.ids.difference(ids_of(selected@).to_set()));
                    }
                } else {
                    assert(self@.queues =~= remaining(
                        before.queues,
                        list,
                        limit,
                        round,
                        (index + 1) as nat,
                    ));
                }
                index += 1;
            }
            proof {
                visited = index as nat;
            }
            if !progressed {
                running = false;
                assert(index == list.len());
            } else {
                proof {
                    if selected@.len() < maximum {
                        lemma_next_round(before.queues, list, limit, round);
                        assert(round * list.len() + list.len() == (round + 1) * list.len())
                            by (nonlinear_arith);
                        round = round + 1;
                        visited = 0;
                    }
                }
            }
        }
        proof {
            assert(ends_at(list, before.queues, limit, maximum, round, visited));
            lemma_block(before.queues, list, limit, maximum, round, visited);
            lemma_after_selection(before, self@, list, round, visited);
        }
        BlockSelection { transactions: selected, scope_visits }
    }

    /// Previews canonical transaction IDs without mutating queue state.
    pub fn preview_block(&self, maximum_transactions: usize) -> (selected: Vec<Hash256>)
        requires
            self.wf(),
        ensures
            selected@ == ids_of(
                block_of(self@.queues, self@.limit as nat, maximum_transactions as nat),
            ),
    {
        let scopes = self.queues.keys();
        let ghost queues = self@.queues;
        let ghost list = scopes@;
        let ghost limit = self@.limit as nat;
        let ghost maximum = maximum_transactions as nat;
        assert(queues.dom() =~= self.queues@.dom());
        let mut selected: Vec<Hash256> = Vec::new();
        let mut round: usize = 0;
        let ghost mut visited: nat = 0;
        assert(selected@ =~= ids_of(picks(list, queues, limit, 0, 0)));
        let mut running = true;
        while running && selected.len() < maximum_transactions
            invariant
                queues == self@.queues,
                list == scopes@,
                list == sorted_keys(queues.dom()),
                limit == self.per_scope_block_limit,
                maximum == maximum_transactions,
                forall|scope: FeeScope| list.contains(scope) <==> queues.contains_key(scope),
                visited <= list.len(),
                round <= limit,
                selected@ == ids_of(picks(list, queues, limit, round as nat, visited)),
                selected@.len() <= maximum,
                forall|earlier: nat|
                    earlier < round ==> !#[trigger] barren(list, queues, limit, earlier),
                running && selected@.len() < maximum ==> visited == 0,
                !running ==> visited == list.len() && barren(list, queues, limit, round as nat)
                    && selected@.len() < maximum,
                selected@.len() == maximum && maximum > 0 ==> visited > 0 && taken_at(
                    queues,
                    list[visited - 1],
                    limit,
                    round as nat,
                ) is Some,
                maximum == 0 ==> round == 0 && visited == 0,
            decreases (if running { 1int } else { 0 }), maximum - selected@.len(),
        {
            let ghost start = selected@.len();
            let mut progressed = false;
            let mut index: usize = 0;
            while index < scopes.len() && selected.len() < maximum_transactions
                invariant
                    queues == self@.queues,
                    list == scopes@,
                    limit == self.per_scope_block_limit,
                    maximum == maximum_transactions,
                    forall|scope: FeeScope| list.contains(scope) <==> queues.contains_key(scope),
                    index <= list.len(),
                    round <= limit,
                    selected@ == ids_of(picks(list, queues, limit, round as nat, index as nat)),
                    start <= selected@.len() <= maximum,
                    start < maximum,
                    progressed == (selected@.len() > start),
                    !progressed ==> forall|j: int|
                        0 <= j < index ==> taken_at(queues, #[trigger] list[j], limit, round as nat)
                            is None,
                    progressed ==> !barren(list, queues, limit, round as nat) && round < limit,
                    selected@.len() == maximum ==> index > 0 && taken_at(
                        queues,
                        list[index - 1],
                        limit,
                        round as nat,
                    ) is Some,
                decreases list.len() - index,
            {
                let scope = scopes[index];
                let ghost selected_before = selected@;
                let ghost picked = picks(list, queues, limit, round as nat, index as nat);
                assert(list.contains(list[index as int]));
                assert(self.queues@.contains_key(scope));
                assert(queues[scope] == self.queues@[scope]@);
                if round < self.per_scope_block_limit {
                    match self.queues.get(&scope) {
                        Some(queue) => {
                            if round < queue.len() {
                                selected.push(queue[round].transaction.id);
                                progressed = true;
                                assert(selected@ =~= ids_of(picked.push(queue@[round as int])));
                            }
                        },
                        None => {
                            assert(false);
                        },
                    }
                }
                index += 1;
            }
            proof {
                visited = index as nat;
            }
            if !progressed {
                running = false;
                assert(index == list.len());
            } else if selected.len() < maximum_transactions {
                round += 1;
                proof {
                    visited = 0;
                }
            }
        }
        proof {
            assert(ends_at(list, queues, limit, maximum, round as nat, visited));
            lemma_block(queues, list, limit, maximum, round as nat, visited);
        }
        selected
    }

    /// Removes specific transactions after another leader's canonical block is
    /// finalized or a local reservation is invalidated.
    pub fn remove_transactions(&mut self, transaction_ids: &OrderedSet<Hash256>) -> (removed: usize)
        requires
            old(self).wf(),
        ensures
            final(self).wf(),
            final(self)@ == (MarketModel {
                queues: queues_without(old(self)@.queues, transaction_ids@),
                ids: old(self)@.ids.difference(transaction_ids@),
                ..old(self)@
            }),
            removed == old(self)@.ids.intersect(transaction_ids@).len(),
    {
        let before: usize = self.transaction_ids.len();
        let ghost market = self@;
        let ghost given = transaction_ids@;
        let scopes = self.queues.keys();
        let ghost list = scopes@;
        let mut index: usize = 0;
        assert(market.queues.dom() =~= self.queues@.dom());
        assert(self@.queues =~= queues_partly_without(market.queues, given, list, 0));
        while index < scopes.len()
            invariant
                index <= list.len(),
                list == scopes@,
                strictly_sorted(list),
                sound_market(market),
                given == transaction_ids@,
                forall|scope: FeeScope| list.contains(scope) <==> market.queues.contains_key(scope),
                self@.queues == queues_partly_without(market.queues, given, list, index as int),
                self@.base_fee == market.base_fee,
                self@.increment == market.increment,
                self@.limit == market.limit,
                self@.policies == market.policies,
                self@.ids == market.ids,
            decreases list.len() - index,
        {
            let scope = scopes[index];
            proof {
                assert(list.contains(list[index as int]));
                lemma_absent_before(list, index as int);
                assert(self@.queues.contains_key(scope));
            }
            let ghost queues_before = self@.queues;
            let ghost stored = self.queues@;
            let queue = match self.queues.remove(&scope) {
                Some(queue) => queue,
                None => Vec::new(),
            };
            assert(queue@ == queues_before[scope]);
            let kept = keep_unlisted(queue, transaction_ids);
            let ghost kept_value = kept@;
            if kept.len() > 0 {
                let _ = self.queues.insert(scope, kept);
            }
            proof {
                let left = queues_partly_without(market.queues, given, list, index + 1);
                let now = self@.queues;
                assert forall|other: FeeScope|
                    #![trigger now.dom().contains(other)]
                    #![trigger left.dom().contains(other)]
                    now.dom().contains(other) == left.dom().contains(other) && (
                    now.dom().contains(other) ==> now[other] == left[other]) by {
                    lemma_take_contains(list, index as int, other);
                    assert(self@.queues.contains_key(other) == self.queues@.contains_key(other));
                    assert(queues_before.contains_key(other) == stored.contains_key(other));
                    if other != scope {
                        assert(self.queues@.contains_key(other) ==> self.queues@[other]
                            == stored[other]);
                        if stored.contains_key(other) {
                            assert(self@.queues[other] == queues_before[other]);
                            assert(queues_before[other] == left[other]);
                        }
                    } else {
                        assert(self.queues@.contains_key(other) == (kept_value.len() > 0));
                        if kept_value.len() > 0 {
                            assert(self@.queues[other] == kept_value);
                            assert(left[other] == kept_value);
                        }
                    }
                }
                assert(now =~= left);
            }
            index += 1;
        }
        proof {
            assert(list.take(index as int) =~= list);
            assert(self@.queues =~= queues_without(market.queues, given));
        }
        let unwanted = transaction_ids.keys();
        let mut position: usize = 0;
        assert(self.transaction_ids@ =~= market.ids.difference(unwanted@.take(0).to_set()));
        while position < unwanted.len()
            invariant
                position <= unwanted@.len(),
                self.transaction_ids@ == market.ids.difference(
                    unwanted@.take(position as int).to_set(),
                ),
                self@.queues == queues_without(market.queues, given),
                self@.base_fee == market.base_fee,
                self@.increment == market.increment,
                self@.limit == market.limit,
                self@.policies == market.policies,
            decreases unwanted@.len() - position,
        {
            let _ = self.transaction_ids.remove(&unwanted[position]);
            proof {
                let shorter = unwanted@.take(position as int);
                assert(unwanted@.take(position + 1) =~= shorter.push(unwanted@[position as int]));
                lemma_push_set(shorter, unwanted@[position as int]);
                assert(self.transaction_ids@ =~= market.ids.difference(
                    unwanted@.take(position + 1).to_set(),
                ));
            }
            position += 1;
        }
        let after: usize = self.transaction_ids.len();
        proof {
            assert(unwanted@.take(position as int) =~= unwanted@);
            assert(unwanted@.to_set() =~= given);
            lemma_removed_count(market.ids, given);
            lemma_sound_without(market, given);
        }
        before.saturating_sub(after)
    }

    /// The number of transactions waiting in a scope.
    pub fn scope_depth(&self, scope: FeeScope) -> (depth: usize)
        ensures
            depth == queue_of(self@.queues, scope).len(),
    {
        match self.queues.get(&scope) {
            Some(queue) => queue.len(),
            None => 0,
        }
    }
}

/// The transactions of a queue that are not listed, in order.
fn keep_unlisted(queue: Vec<PendingTransaction>, listed: &OrderedSet<Hash256>) -> (kept: Vec<
    PendingTransaction,
>)
    ensures
        kept@ == queue@.filter(unlisted(listed@)),
{
    let ghost all = queue@;
    let mut rest = queue;
    let mut kept: Vec<PendingTransaction> = Vec::new();
    let ghost mut done: int = 0;
    proof {
        reveal(Seq::filter);
        assert(all.take(0).filter(unlisted(listed@)) =~= Seq::<PendingTransaction>::empty());
        assert(rest@ =~= all.skip(0));
    }
    while rest.len() > 0
        invariant
            0 <= done <= all.len(),
            rest@ == all.skip(done),
            kept@ == all.take(done).filter(unlisted(listed@)),
        decreases rest@.len(),
    {
        let pending = rest.remove(0);
        proof {
            reveal(Seq::filter);
            let next = all.take(done + 1);
            assert(next.drop_last() =~= all.take(done));
            assert(next.last() == pending);
            assert(rest@ =~= all.skip(done + 1));
            done = done + 1;
        }
        if !listed.contains(&pending.transaction.id) {
            kept.push(pending);
        }
    }
    assert(all.take(done) =~= all);
    kept
}

/// A count that fits the machine word; a larger one counts as the largest.
pub open spec fn at_most_usize(count: nat) -> nat {
    if count > usize::MAX {
        usize::MAX as nat
    } else {
        count
    }
}

/// What a queue of some length has given after some rounds.
pub open spec fn progress(length: nat, limit: nat, rounds: nat) -> nat {
    if rounds <= length && rounds <= limit {
        rounds
    } else if length <= limit {
        length
    } else {
        limit
    }
}

/// The rounds in which a scope was visited.
spec fn rounds_of(list: Seq<FeeScope>, scope: FeeScope, round: nat, visited: nat) -> nat {
    round + if list.take(visited as int).contains(scope) {
        1nat
    } else {
        0
    }
}

/// What a scope has given after some visits.
spec fn given_by(
    queues: Queues,
    list: Seq<FeeScope>,
    limit: nat,
    round: nat,
    visited: nat,
    scope: FeeScope,
) -> nat {
    progress(queue_of(queues, scope).len(), limit, rounds_of(list, scope, round, visited))
}

/// What is left of the queues after some visits.
spec fn remaining(
    queues: Queues,
    list: Seq<FeeScope>,
    limit: nat,
    round: nat,
    visited: nat,
) -> Queues {
    Map::new(
        |scope: FeeScope|
            queues.contains_key(scope) && given_by(queues, list, limit, round, visited, scope)
                < queues[scope].len(),
        |scope: FeeScope|
            queues[scope].skip(given_by(queues, list, limit, round, visited, scope) as int),
    )
}

/// The queues of the first `count` scopes without the given transactions.
spec fn queues_partly_without(
    queues: Queues,
    ids: Set<Hash256>,
    list: Seq<FeeScope>,
    count: int,
) -> Queues {
    Map::new(
        |scope: FeeScope|
            queues.contains_key(scope) && (list.take(count).contains(scope)
                ==> queues[scope].filter(unlisted(ids)).len() > 0),
        |scope: FeeScope|
            if list.take(count).contains(scope) {
                queues[scope].filter(unlisted(ids))
            } else {
                queues[scope]
            },
    )
}

proof fn lemma_push_set<K>(keys: Seq<K>, key: K)
    ensures
        keys.push(key).to_set() == keys.to_set().insert(key),
{
    let longer = keys.push(key);
    assert forall|k: K| longer.to_set().contains(k) <==> keys.to_set().insert(key).contains(k) by {
        if keys.contains(k) {
            let i = choose|i: int| 0 <= i < keys.len() && keys[i] == k;
            assert(longer[i] == k);
        }
        assert(longer[keys.len() as int] == key);
        if longer.contains(k) && k != key {
            let i = choose|i: int| 0 <= i < longer.len() && longer[i] == k;
            assert(keys[i] == k);
        }
    }
    assert(longer.to_set() =~= keys.to_set().insert(key));
}

proof fn lemma_take_contains<K>(keys: Seq<K>, count: int, key: K)
    requires
        0 <= count < keys.len(),
    ensures
        keys.take(count + 1).contains(key) <==> (keys.take(count).contains(key) || key
            == keys[count]),
{
    let shorter = keys.take(count);
    let longer = keys.take(count + 1);
    if shorter.contains(key) {
        let i = choose|i: int| 0 <= i < shorter.len() && shorter[i] == key;
        assert(longer[i] == key);
    }
    assert(longer[count] == keys[count]);
    if longer.contains(key) && key != keys[count] {
        let i = choose|i: int| 0 <= i < longer.len() && longer[i] == key;
        assert(shorter[i] == key);
    }
}

proof fn lemma_absent_before(list: Seq<FeeScope>, index: int)
    requires
        strictly_sorted(list),
        0 <= index < list.len(),
    ensures
        !list.take(index).contains(list[index]),
{
    let shorter = list.take(index);
    if shorter.contains(list[index]) {
        let i = choose|i: int| 0 <= i < shorter.len() && shorter[i] == list[index];
        assert(list[i].precedes(list[index]));
        FeeScope::precedes_irreflexive(list[index]);
    }
}

proof fn lemma_remaining_step(
    queues: Queues,
    list: Seq<FeeScope>,
    limit: nat,
    round: nat,
    index: nat,
)
    requires
        strictly_sorted(list),
        index < list.len(),
        limit > 0,
    ensures
        ({
            let scope = list[index as int];
            let length = queue_of(queues, scope).len();
            &&& given_by(queues, list, limit, round, index, scope) == progress(length, limit, round)
            &&& given_by(queues, list, limit, round, index + 1, scope) == progress(
                length,
                limit,
                round + 1,
            )
            &&& forall|other: FeeScope|
                other != scope ==> #[trigger] given_by(
                    queues,
                    list,
                    limit,
                    round,
                    index + 1,
                    other,
                ) == given_by(queues, list, limit, round, index, other)
        }),
{
    let scope = list[index as int];
    lemma_absent_before(list, index as int);
    lemma_take_contains(list, index as int, scope);
    assert forall|other: FeeScope| other != scope implies #[trigger] given_by(
        queues,
        list,
        limit,
        round,
        index + 1,
        other,
    ) == given_by(queues, list, limit, round, index, other) by {
        lemma_take_contains(list, index as int, other);
    }
}

proof fn lemma_next_round(queues: Queues, list: Seq<FeeScope>, limit: nat, round: nat)
    requires
        forall|scope: FeeScope| list.contains(scope) <==> queues.contains_key(scope),
    ensures
        remaining(queues, list, limit, round, list.len()) == remaining(
            queues,
            list,
            limit,
            round + 1,
            0,
        ),
        picks(list, queues, limit, round, list.len()) == picks(list, queues, limit, round + 1, 0),
{
    assert(list.take(list.len() as int) =~= list);
    assert(list.take(0).len() == 0);
    assert(remaining(queues, list, limit, round, list.len()) =~= remaining(
        queues,
        list,
        limit,
        round + 1,
        0,
    ));
}

proof fn lemma_picks_grow(
    list: Seq<FeeScope>,
    queues: Queues,
    limit: nat,
    round: nat,
    count: nat,
    more: nat,
)
    requires
        count <= more <= list.len(),
    ensures
        picks(list, queues, limit, round, count).is_prefix_of(
            picks(list, queues, limit, round, more),
        ),
    decreases more,
{
    if count < more {
        lemma_picks_grow(list, queues, limit, round, count, (more - 1) as nat);
    }
}

proof fn lemma_rounds_grow(
    list: Seq<FeeScope>,
    queues: Queues,
    limit: nat,
    round: nat,
    more: nat,
)
    requires
        round <= more,
    ensures
        picks(list, queues, limit, round, 0).is_prefix_of(picks(list, queues, limit, more, 0)),
    decreases more,
{
    if round < more {
        lemma_rounds_grow(list, queues, limit, round, (more - 1) as nat);
        lemma_picks_grow(list, queues, limit, (more - 1) as nat, 0, list.len());
    }
}

proof fn lemma_barren_round(
    list: Seq<FeeScope>,
    queues: Queues,
    limit: nat,
    round: nat,
    count: nat,
)
    requires
        barren(list, queues, limit, round),
        count <= list.len(),
    ensures
        picks(list, queues, limit, round, count) == picks(list, queues, limit, round, 0),
    decreases count,
{
    if count > 0 {
        lemma_barren_round(list, queues, limit, round, (count - 1) as nat);
        assert(taken_at(queues, list[count - 1], limit, round) is None);
    }
}

proof fn lemma_barren_rounds(
    list: Seq<FeeScope>,
    queues: Queues,
    limit: nat,
    round: nat,
    more: nat,
)
    requires
        barren(list, queues, limit, round),
        round <= more,
    ensures
        picks(list, queues, limit, more, 0) == picks(list, queues, limit, round, 0),
    decreases more,
{
    if round < more {
        let previous = (more - 1) as nat;
        lemma_barren_rounds(list, queues, limit, round, previous);
        assert(barren(list, queues, limit, previous)) by {
            assert forall|j: int| 0 <= j < list.len() implies taken_at(
                queues,
                #[trigger] list[j],
                limit,
                previous,
            ) is None by {
                assert(taken_at(queues, list[j], limit, round) is None);
            }
        }
        lemma_barren_round(list, queues, limit, previous, list.len());
    }
}

/// Where the selection ends, it has taken the block.
proof fn lemma_block(
    queues: Queues,
    list: Seq<FeeScope>,
    limit: nat,
    maximum: nat,
    round: nat,
    visited: nat,
)
    requires
        list == sorted_keys(queues.dom()),
        ends_at(list, queues, limit, maximum, round, visited),
    ensures
        picks(list, queues, limit, round, visited) == block_of(queues, limit, maximum),
{
    let taken = picks(list, queues, limit, round, visited);
    let all = picks(list, queues, limit, limit, 0);
    if taken.len() == maximum {
        if maximum > 0 {
            assert(round < limit);
            lemma_picks_grow(list, queues, limit, round, visited, list.len());
            lemma_rounds_grow(list, queues, limit, round + 1, limit);
            assert(taken.is_prefix_of(all));
        }
        assert(taken =~= all.take(maximum as int));
    } else {
        lemma_barren_round(list, queues, limit, round, visited);
        if round <= limit {
            lemma_barren_rounds(list, queues, limit, round, limit);
        } else {
            assert(barren(list, queues, limit, limit));
        }
        assert(taken =~= all.take(all.len() as int));
    }
}

/// What was taken from a scope is the front of its queue.
proof fn lemma_picks_by_scope<P: OrderingPolicy>(
    market: MarketModel<P>,
    list: Seq<FeeScope>,
    round: nat,
    count: nat,
    scope: FeeScope,
)
    requires
        sound_market(market),
        strictly_sorted(list),
        forall|s: FeeScope| list.contains(s) <==> market.queues.contains_key(s),
        count <= list.len(),
    ensures
        picks(list, market.queues, market.limit as nat, round, count).filter(in_scope(scope))
            == queue_of(market.queues, scope).take(
            given_by(market.queues, list, market.limit as nat, round, count, scope) as int,
        ),
    decreases round, count,
{
    reveal(Seq::filter);
    let queues = market.queues;
    let limit = market.limit as nat;
    let queue = queue_of(queues, scope);
    let taken = picks(list, queues, limit, round, count);
    if count > 0 {
        let index = (count - 1) as nat;
        let visited = list[index as int];
        let earlier = picks(list, queues, limit, round, index);
        lemma_picks_by_scope(market, list, round, index, scope);
        lemma_remaining_step(queues, list, limit, round, index);
        match taken_at(queues, visited, limit, round) {
            Some(pending) => {
                assert(taken.drop_last() =~= earlier);
                assert(taken.last() == pending);
                assert(queues.contains_key(visited));
                assert(sound_queue(visited, queues[visited], market.ids));
                assert(pending.transaction.scope == visited);
                if visited == scope {
                    assert(queue.take(round as int).push(pending) =~= queue.take((round + 1) as int));
                } else {
                    assert(given_by(queues, list, limit, round, count, scope) == given_by(
                        queues,
                        list,
                        limit,
                        round,
                        index,
                        scope,
                    ));
                }
            },
            None => {
                if visited != scope {
                    assert(given_by(queues, list, limit, round, count, scope) == given_by(
                        queues,
                        list,
                        limit,
                        round,
                        index,
                        scope,
                    ));
                }
            },
        }
    } else if round > 0 {
        lemma_picks_by_scope(market, list, (round - 1) as nat, list.len(), scope);
        assert(list.take(list.len() as int) =~= list);
        assert(list.take(0).len() == 0);
    } else {
        assert(queue.take(0) =~= Seq::<PendingTransaction>::empty());
    }
}

/// Everything taken comes from the front part of a queue.
proof fn lemma_pick_origin<P: OrderingPolicy>(
    market: MarketModel<P>,
    list: Seq<FeeScope>,
    round: nat,
    count: nat,
    index: int,
) -> (origin: (FeeScope, int))
    requires
        sound_market(market),
        strictly_sorted(list),
        forall|s: FeeScope| list.contains(s) <==> market.queues.contains_key(s),
        count <= list.len(),
        0 <= index < picks(list, market.queues, market.limit as nat, round, count).len(),
    ensures
        market.queues.contains_key(origin.0),
        0 <= origin.1 < market.queues[origin.0].len(),
        origin.1 < given_by(market.queues, list, market.limit as nat, round, count, origin.0),
        picks(list, market.queues, market.limit as nat, round, count)[index]
            == market.queues[origin.0][origin.1],
    decreases round, count,
{
    let queues = market.queues;
    let limit = market.limit as nat;
    if count > 0 {
        let before = (count - 1) as nat;
        let visited = list[before as int];
        let earlier = picks(list, queues, limit, round, before);
        lemma_remaining_step(queues, list, limit, round, before);
        if index < earlier.len() {
            let origin = lemma_pick_origin(market, list, round, before, index);
            if origin.0 != visited {
                assert(given_by(queues, list, limit, round, count, origin.0) == given_by(
                    queues,
                    list,
                    limit,
                    round,
                    before,
                    origin.0,
                ));
            }
            origin
        } else {
            (visited, round as int)
        }
    } else {
        let origin = lemma_pick_origin(market, list, (round - 1) as nat, list.len(), index);
        assert(list.take(list.len() as int) =~= list);
        assert(list.take(0).len() == 0);
        origin
    }
}

/// The market after a selection is sound, and every queue is what was taken
/// from it followed by what is left.
proof fn lemma_after_selection<P: OrderingPolicy>(
    market: MarketModel<P>,
    after: MarketModel<P>,
    list: Seq<FeeScope>,
    round: nat,
    visited: nat,
)
    requires
        sound_market(market),
        strictly_sorted(list),
        forall|s: FeeScope| list.contains(s) <==> market.queues.contains_key(s),
        visited <= list.len(),
        after.limit == market.limit,
        after.queues == remaining(market.queues, list, market.limit as nat, round, visited),
        after.ids == market.ids.difference(
            ids_of(picks(list, market.queues, market.limit as nat, round, visited)).to_set(),
        ),
    ensures
        sound_market(after),
        forall|scope: FeeScope|
            queue_of(market.queues, scope) == picks(
                list,
                market.queues,
                market.limit as nat,
                round,
                visited,
            ).filter(in_scope(scope)) + #[trigger] queue_of(after.queues, scope),
{
    let queues = market.queues;
    let limit = market.limit as nat;
    let taken = picks(list, queues, limit, round, visited);
    assert(after.queues.dom().subset_of(queues.dom()));
    vstd::set_lib::lemma_set_subset_finite(queues.dom(), after.queues.dom());
    assert forall|scope: FeeScope| #[trigger] after.queues.contains_key(scope) implies sound_queue(
        scope,
        after.queues[scope],
        after.ids,
    ) by {
        let skipped = given_by(queues, list, limit, round, visited, scope) as int;
        assert(sound_queue(scope, queues[scope], market.ids));
        assert forall|i: int| 0 <= i < after.queues[scope].len() implies (
        #[trigger] after.queues[scope][i]).transaction.scope == scope && after.ids.contains(
            after.queues[scope][i].transaction.id,
        ) by {
            let pending = queues[scope][skipped + i];
            assert(after.queues[scope][i] == pending);
            let id = pending.transaction.id;
            assert(market.ids.contains(id));
            if ids_of(taken).to_set().contains(id) {
                let k = choose|k: int| 0 <= k < ids_of(taken).len() && ids_of(taken)[k] == id;
                let origin = lemma_pick_origin(market, list, round, visited, k);
                assert(queues[origin.0][origin.1].transaction.id
                    == queues[scope][skipped + i].transaction.id);
            }
        }
    }
    assert forall|left: FeeScope, i: int, right: FeeScope, j: int|
        #![trigger after.queues[left][i], after.queues[right][j]]
        after.queues.contains_key(left) && after.queues.contains_key(right) && 0 <= i
            < after.queues[left].len() && 0 <= j < after.queues[right].len()
            && after.queues[left][i].transaction.id == after.queues[right][j].transaction.id implies
        left == right && i == j by {
        let a = given_by(queues, list, limit, round, visited, left) as int;
        let b = given_by(queues, list, limit, round, visited, right) as int;
        assert(after.queues[left][i] == queues[left][a + i]);
        assert(after.queues[right][j] == queues[right][b + j]);
    }
    assert forall|scope: FeeScope|
        queue_of(queues, scope) == taken.filter(in_scope(scope)) + #[trigger] queue_of(
            after.queues,
            scope,
        ) by {
        lemma_picks_by_scope(market, list, round, visited, scope);
        let given = given_by(queues, list, limit, round, visited, scope) as int;
        let queue = queue_of(queues, scope);
        assert(queue =~= queue.take(given) + queue.skip(given));
        assert(queue_of(after.queues, scope) =~= queue.skip(given));
    }
}

proof fn lemma_sound_after_submit<P: OrderingPolicy>(market: MarketModel<P>, pending: PendingTransaction, position: int)
    requires
        sound_market(market),
        !market.ids.contains(pending.transaction.id),
        0 <= position <= queue_of(market.queues, pending.transaction.scope).len(),
    ensures
        sound_market(with_pending(market, pending, position)),
{
    let after = with_pending(market, pending, position);
    let scope = pending.transaction.scope;
    let queue = queue_of(market.queues, scope);
    let longer = after.queues[scope];
    assert(longer == queue.insert(position, pending));
    assert forall|other: FeeScope| #[trigger] after.queues.contains_key(other) implies sound_queue(
        other,
        after.queues[other],
        after.ids,
    ) by {
        if market.queues.contains_key(other) {
            assert(sound_queue(other, market.queues[other], market.ids));
        }
        if other == scope {
            assert forall|i: int| 0 <= i < longer.len() implies (
            #[trigger] longer[i]).transaction.scope == scope && after.ids.contains(
                longer[i].transaction.id,
            ) by {
                if i < position {
                    assert(longer[i] == queue[i]);
                } else if i > position {
                    assert(longer[i] == queue[i - 1]);
                }
            }
        }
    }
    assert forall|left: FeeScope, i: int, right: FeeScope, j: int|
        #![trigger after.queues[left][i], after.queues[right][j]]
        after.queues.contains_key(left) && after.queues.contains_key(right) && 0 <= i
            < after.queues[left].len() && 0 <= j < after.queues[right].len()
            && after.queues[left][i].transaction.id == after.queues[right][j].transaction.id implies
        left == right && i == j by {
        let a = if left == scope && i > position { i - 1 } else { i };
        let b = if right == scope && j > position { j - 1 } else { j };
        let left_is_new = left == scope && i == position;
        let right_is_new = right == scope && j == position;
        if !left_is_new {
            assert(market.queues.contains_key(left));
            assert(sound_queue(left, market.queues[left], market.ids));
            assert(after.queues[left][i] == market.queues[left][a]);
            assert(market.ids.contains(market.queues[left][a].transaction.id));
        }
        if !right_is_new {
            assert(market.queues.contains_key(right));
            assert(sound_queue(right, market.queues[right], market.ids));
            assert(after.queues[right][j] == market.queues[right][b]);
            assert(market.ids.contains(market.queues[right][b].transaction.id));
        }
    }
}

proof fn lemma_filter_origin(queue: Seq<PendingTransaction>, ids: Set<Hash256>)
    ensures
        forall|i: int|
            #![trigger queue.filter(unlisted(ids))[i]]
            0 <= i < queue.filter(unlisted(ids)).len() ==> {
                &&& 0 <= filter_position(queue, ids, i) < queue.len()
                &&& queue[filter_position(queue, ids, i)] == queue.filter(unlisted(ids))[i]
                &&& !ids.contains(queue.filter(unlisted(ids))[i].transaction.id)
            },
        forall|i: int, j: int|
            #![trigger filter_position(queue, ids, i), filter_position(queue, ids, j)]
            0 <= i < j < queue.filter(unlisted(ids)).len() ==> filter_position(queue, ids, i)
                < filter_position(queue, ids, j),
    decreases queue.len(),
{
    reveal(Seq::filter);
    if queue.len() > 0 {
        let shorter = queue.drop_last();
        lemma_filter_origin(shorter, ids);
        let kept = queue.filter(unlisted(ids));
        let earlier = shorter.filter(unlisted(ids));
        assert forall|i: int| #![trigger kept[i]] 0 <= i < kept.len() implies {
            &&& 0 <= filter_position(queue, ids, i) < queue.len()
            &&& queue[filter_position(queue, ids, i)] == kept[i]
            &&& !ids.contains(kept[i].transaction.id)
        } by {
            if i < earlier.len() {
                assert(earlier[i] == kept[i]);
                assert(shorter[filter_position(shorter, ids, i)] == earlier[i]);
            }
        }
        assert forall|i: int, j: int|
            #![trigger filter_position(queue, ids, i), filter_position(queue, ids, j)]
            0 <= i < j < kept.len() implies filter_position(queue, ids, i) < filter_position(
            queue,
            ids,
            j,
        ) by {
            assert(earlier[i] == kept[i]);
            assert(filter_position(queue, ids, i) == filter_position(shorter, ids, i));
            if j < earlier.len() {
                assert(filter_position(shorter, ids, i) < filter_position(shorter, ids, j));
            }
        }
    }
}

/// Where the `i`-th transaction that is kept stood in the queue.
spec fn filter_position(queue: Seq<PendingTransaction>, ids: Set<Hash256>, i: int) -> int
    decreases queue.len(),
{
    if queue.len() == 0 {
        0
    } else if i < queue.drop_last().filter(unlisted(ids)).len() {
        filter_position(queue.drop_last(), ids, i)
    } else {
        queue.len() - 1
    }
}

proof fn lemma_sound_without<P: OrderingPolicy>(market: MarketModel<P>, ids: Set<Hash256>)
    requires
        sound_market(market),
    ensures
        sound_market(
            MarketModel {
                queues: queues_without(market.queues, ids),
                ids: market.ids.difference(ids),
                ..market
            },
        ),
{
    let queues = queues_without(market.queues, ids);
    assert(queues.dom().subset_of(market.queues.dom()));
    vstd::set_lib::lemma_set_subset_finite(market.queues.dom(), queues.dom());
    assert forall|scope: FeeScope| #[trigger] queues.contains_key(scope) implies sound_queue(
        scope,
        queues[scope],
        market.ids.difference(ids),
    ) by {
        assert(sound_queue(scope, market.queues[scope], market.ids));
        lemma_filter_origin(market.queues[scope], ids);
        let queue = market.queues[scope];
        assert forall|i: int| 0 <= i < queues[scope].len() implies (
        #[trigger] queues[scope][i]).transaction.scope == scope && market.ids.difference(
            ids,
        ).contains(queues[scope][i].transaction.id) by {
            assert(queue[filter_position(queue, ids, i)] == queues[scope][i]);
        }
    }
    assert forall|left: FeeScope, i: int, right: FeeScope, j: int|
        #![trigger queues[left][i], queues[right][j]]
        queues.contains_key(left) && queues.contains_key(right) && 0 <= i < queues[left].len() && 0
            <= j < queues[right].len() && queues[left][i].transaction.id
            == queues[right][j].transaction.id implies left == right && i == j by {
        let first = market.queues[left];
        let second = market.queues[right];
        lemma_filter_origin(first, ids);
        lemma_filter_origin(second, ids);
        let a = filter_position(first, ids, i);
        let b = filter_position(second, ids, j);
        assert(first[a] == queues[left][i]);
        assert(second[b] == queues[right][j]);
        assert(market.queues[left][a].transaction.id == market.queues[right][b].transaction.id);
        if i < j {
            assert(filter_position(first, ids, i) < filter_position(first, ids, j));
        } else if j < i {
            assert(filter_position(first, ids, j) < filter_position(first, ids, i));
        }
    }
}

proof fn lemma_removed_count(ids: Set<Hash256>, given: Set<Hash256>)
    requires
        ids.finite(),
    ensures
        ids.difference(given).finite(),
        ids.len() == ids.difference(given).len() + ids.intersect(given).len(),
{
    vstd::set_lib::lemma_set_disjoint_lens(ids.difference(given), ids.intersect(given));
    assert(ids =~= ids.difference(given) + ids.intersect(given));
}

/// The default rule is total.
pub proof fn law_priority_rule_is_total<P: OrderingPolicy>(
    policies: Map<FeeScope, P>,
    scope: FeeScope,
)
    requires
        !policies.contains_key(scope),
    ensures
        total_rule(policies, scope),
{
    assert forall|a: PendingTransaction, b: PendingTransaction|
        (#[trigger] scope_order(policies, scope, a, b) == Ordering::Greater) <==> scope_order(
            policies,
            scope,
            b,
            a,
        ) == Ordering::Less by {
        lemma_ids_strict(a.transaction.id, b.transaction.id);
    }
    assert forall|a: PendingTransaction, b: PendingTransaction, c: PendingTransaction|
        #![trigger scope_order(policies, scope, a, b), scope_order(policies, scope, b, c)]
        scope_order(policies, scope, a, b) != Ordering::Greater && scope_order(
            policies,
            scope,
            b,
            c,
        ) != Ordering::Greater implies scope_order(policies, scope, a, c) != Ordering::Greater by {
        lemma_ids_chain(a.transaction.id, b.transaction.id, c.transaction.id);
    }
    assert forall|a: PendingTransaction, b: PendingTransaction, c: PendingTransaction|
        #![trigger scope_order(policies, scope, a, b), scope_order(policies, scope, b, c)]
        scope_order(policies, scope, a, b) != Ordering::Greater && scope_order(
            policies,
            scope,
            b,
            c,
        ) == Ordering::Less implies scope_order(policies, scope, a, c) == Ordering::Less by {
        lemma_ids_chain(a.transaction.id, b.transaction.id, c.transaction.id);
    }
}

proof fn lemma_ids_strict(a: Hash256, b: Hash256)
    ensures
        !(a.precedes(b) && b.precedes(a)),
{
    if a.precedes(b) && b.precedes(a) {
        Hash256::precedes_transitive(a, b, a);
        Hash256::precedes_irreflexive(a);
    }
}

proof fn lemma_ids_chain(a: Hash256, b: Hash256, c: Hash256)
    ensures
        !b.precedes(a) && b.precedes(c) ==> a.precedes(c),
        !b.precedes(a) && !c.precedes(b) ==> !c.precedes(a),
        !(a.precedes(c) && c.precedes(a)),
{
    lemma_ids_strict(a, c);
    Hash256::precedes_total(a, b);
    Hash256::precedes_total(b, c);
    if a.precedes(b) && b.precedes(c) {
        Hash256::precedes_transitive(a, b, c);
    }
}

/// A queue under a total rule stays in order: a submitted transaction finds a
/// place where nothing before it should come after it, nor the other way round.
pub proof fn law_submission_keeps_queue_ordered<P: OrderingPolicy>(
    policies: Map<FeeScope, P>,
    scope: FeeScope,
    queue: Seq<PendingTransaction>,
    pending: PendingTransaction,
    position: int,
)
    requires
        total_rule(policies, scope),
        queue_ordered(policies, scope, queue),
        0 <= position <= queue.len(),
        partitioned(policies, scope, queue, pending) ==> fits_at(
            policies,
            scope,
            queue,
            pending,
            position,
        ),
    ensures
        queue_ordered(policies, scope, queue.insert(position, pending)),
{
    assert forall|i: int, j: int| #![trigger queue[i], queue[j]]
        0 <= i < j < queue.len() implies {
        &&& scope_order(policies, scope, queue[i], pending) == Ordering::Greater ==> scope_order(
            policies,
            scope,
            queue[j],
            pending,
        ) == Ordering::Greater
        &&& scope_order(policies, scope, queue[j], pending) == Ordering::Less ==> scope_order(
            policies,
            scope,
            queue[i],
            pending,
        ) == Ordering::Less
    } by {
        assert(scope_order(policies, scope, queue[i], queue[j]) != Ordering::Greater);
        if scope_order(policies, scope, queue[i], pending) == Ordering::Greater && scope_order(
            policies,
            scope,
            queue[j],
            pending,
        ) != Ordering::Greater {
            assert(scope_order(policies, scope, queue[i], pending) != Ordering::Greater);
        }
    }
    assert(partitioned(policies, scope, queue, pending));
    let after = queue.insert(position, pending);
    assert forall|i: int, j: int| #![trigger after[i], after[j]]
        0 <= i < j < after.len() implies scope_order(policies, scope, after[i], after[j])
        != Ordering::Greater by {
        let a = if i < position { i } else { i - 1 };
        let b = if j < position { j } else { j - 1 };
        if i == position {
            assert(scope_order(policies, scope, queue[b], pending) != Ordering::Less);
            assert((scope_order(policies, scope, pending, queue[b]) == Ordering::Greater)
                <==> scope_order(policies, scope, queue[b], pending) == Ordering::Less);
        } else if j == position {
            assert(scope_order(policies, scope, queue[a], pending) != Ordering::Greater);
        } else {
            assert(scope_order(policies, scope, queue[a], queue[b]) != Ordering::Greater);
        }
    }
}

/// Congestion stays local: a transaction that joins one scope changes neither
/// the price nor the acceptance of a transaction in another, and raises the
/// base fee of its own scope by one increment.
pub proof fn law_congestion_stays_local<P: OrderingPolicy>(
    market: MarketModel<P>,
    pending: PendingTransaction,
    position: int,
    other: SubmittedTransaction,
)
    requires
        0 <= position <= queue_of(market.queues, pending.transaction.scope).len(),
        other.id != pending.transaction.id,
    ensures
        ({
            let after = with_pending(market, pending, position);
            if other.scope != pending.transaction.scope {
                submit_result(after, other) == submit_result(market, other)
            } else {
                submit_result(market, other) matches Ok(earlier) ==> (submit_result(after, other)
                    matches Ok(quote) ==> quote.local_base_fee_per_compute
                    == earlier.local_base_fee_per_compute + market.increment)
            }
        }),
{
    let scope = pending.transaction.scope;
    let after = with_pending(market, pending, position);
    let depth = queue_of(market.queues, scope).len();
    let increment = market.increment as int;
    assert(queue_of(after.queues, scope).len() == depth + 1);
    assert(increment * (depth + 1) == increment * depth + increment) by (nonlinear_arith);
}

/// A preview lists exactly the transactions that a selection then takes.
pub proof fn law_preview_matches_selection(
    queues: Queues,
    limit: nat,
    maximum: nat,
    previewed: Seq<Hash256>,
    selected: Seq<PendingTransaction>,
)
    requires
        previewed == ids_of(block_of(queues, limit, maximum)),
        selected == block_of(queues, limit, maximum),
    ensures
        previewed == ids_of(selected),
{
}

/// No scope contributes more than its limit to a block.
pub proof fn law_scope_contribution_is_capped<P: OrderingPolicy>(
    market: MarketModel<P>,
    scopes: Seq<FeeScope>,
    maximum: nat,
    scope: FeeScope,
)
    requires
        sound_market(market),
        strictly_sorted(scopes),
        scopes.to_set() == market.queues.dom(),
    ensures
        block_of(market.queues, market.limit as nat, maximum).filter(in_scope(scope)).len()
            <= market.limit,
{
    let limit = market.limit as nat;
    crate::ordered::lemma_sorted_keys(scopes);
    assert forall|s: FeeScope| scopes.contains(s) <==> market.queues.contains_key(s) by {
        assert(scopes.to_set().contains(s) == market.queues.dom().contains(s));
    }
    lemma_picks_by_scope(market, scopes, limit, 0, scope);
    let all = picks(scopes, market.queues, limit, limit, 0);
    let block = block_of(market.queues, limit, maximum);
    let rest = all.skip(block.len() as int);
    assert(all =~= block + rest);
    Seq::filter_distributes_over_add(block, rest, in_scope(scope));
    let given = given_by(market.queues, scopes, limit, limit, 0, scope);
    assert(scopes.take(0).len() == 0);
    assert(given <= limit && given <= queue_of(market.queues, scope).len());
    assert(all.filter(in_scope(scope)).len() == given);
}

/// A busy scope delays no other: the first transactions of a block are the
/// heads of all queues, one from each scope in order.
pub proof fn law_every_scope_is_served_in_the_first_round<P: OrderingPolicy>(
    market: MarketModel<P>,
    scopes: Seq<FeeScope>,
    maximum: nat,
    index: int,
)
    requires
        sound_market(market),
        strictly_sorted(scopes),
        scopes.to_set() == market.queues.dom(),
        0 <= index < scopes.len(),
        index < maximum,
    ensures
        block_of(market.queues, market.limit as nat, maximum).len() > index,
        block_of(market.queues, market.limit as nat, maximum)[index]
            == market.queues[scopes[index]][0],
{
    let limit = market.limit as nat;
    let queues = market.queues;
    crate::ordered::lemma_sorted_keys(scopes);
    lemma_first_round(market, scopes, (index + 1) as nat);
    lemma_picks_grow(scopes, queues, limit, 0, (index + 1) as nat, scopes.len());
    lemma_rounds_grow(scopes, queues, limit, 1, limit);
    let front = picks(scopes, queues, limit, 0, (index + 1) as nat);
    let round = picks(scopes, queues, limit, 0, scopes.len());
    let all = picks(scopes, queues, limit, limit, 0);
    assert(picks(scopes, queues, limit, 1, 0) == round);
    assert(front[index] == round[index]);
    assert(round[index] == all[index]);
}

proof fn lemma_first_round<P: OrderingPolicy>(
    market: MarketModel<P>,
    scopes: Seq<FeeScope>,
    count: nat,
)
    requires
        sound_market(market),
        scopes.to_set() == market.queues.dom(),
        count <= scopes.len(),
    ensures
        picks(scopes, market.queues, market.limit as nat, 0, count).len() == count,
        forall|i: int|
            0 <= i < count ==> #[trigger] picks(
                scopes,
                market.queues,
                market.limit as nat,
                0,
                count,
            )[i] == market.queues[scopes[i]][0],
    decreases count,
{
    if count > 0 {
        lemma_first_round(market, scopes, (count - 1) as nat);
        let scope = scopes[count - 1];
        assert(scopes.to_set().contains(scope));
        assert(market.queues.contains_key(scope));
        assert(sound_queue(scope, market.queues[scope], market.ids));
    }
}

/// Every prefix of what the rounds give is what some number of visits gives.
proof fn lemma_prefix_of_rounds(
    scopes: Seq<FeeScope>,
    queues: Queues,
    limit: nat,
    round: nat,
    count: nat,
    length: nat,
) -> (end: (nat, nat))
    requires
        count <= scopes.len(),
        length <= picks(scopes, queues, limit, round, count).len(),
    ensures
        end.1 <= scopes.len(),
        picks(scopes, queues, limit, end.0, end.1) == picks(
            scopes,
            queues,
            limit,
            round,
            count,
        ).take(length as int),
    decreases round, count,
{
    let all = picks(scopes, queues, limit, round, count);
    if length == all.len() {
        assert(all.take(length as int) =~= all);
        (round, count)
    } else if count > 0 {
        let earlier = picks(scopes, queues, limit, round, (count - 1) as nat);
        assert(all.take(length as int) =~= earlier.take(length as int));
        lemma_prefix_of_rounds(scopes, queues, limit, round, (count - 1) as nat, length)
    } else {
        lemma_prefix_of_rounds(scopes, queues, limit, (round - 1) as nat, scopes.len(), length)
    }
}

/// A block is as full as the market allows: either it holds the maximum, or every
/// scope has given all that it has, up to its limit. And it is fair: a scope is more
/// than one transaction behind another only where it has given all that it may.
pub proof fn law_block_is_full_and_fair<P: OrderingPolicy>(
    market: MarketModel<P>,
    scopes: Seq<FeeScope>,
    maximum: nat,
    ahead: FeeScope,
    behind: FeeScope,
)
    requires
        sound_market(market),
        strictly_sorted(scopes),
        scopes.to_set() == market.queues.dom(),
    ensures
        ({
            let block = block_of(market.queues, market.limit as nat, maximum);
            let most = block.filter(in_scope(ahead)).len();
            let least = block.filter(in_scope(behind)).len();
            let waiting = queue_of(market.queues, behind).len();
            &&& block.len() <= maximum
            &&& least <= market.limit && least <= waiting
            &&& block.filter(in_scope(behind)) == queue_of(market.queues, behind).take(
                least as int,
            )
            &&& block.len() < maximum || most > least + 1 ==> least == market.limit || least
                == waiting
        }),
{
    let limit = market.limit as nat;
    let queues = market.queues;
    crate::ordered::lemma_sorted_keys(scopes);
    assert forall|s: FeeScope| scopes.contains(s) <==> queues.contains_key(s) by {
        assert(scopes.to_set().contains(s) == queues.dom().contains(s));
    }
    let all = picks(scopes, queues, limit, limit, 0);
    let block = block_of(queues, limit, maximum);
    let (round, count) = lemma_prefix_of_rounds(scopes, queues, limit, limit, 0, block.len());
    assert(block == picks(scopes, queues, limit, round, count));
    lemma_picks_by_scope(market, scopes, round, count, behind);
    lemma_picks_by_scope(market, scopes, round, count, ahead);
    lemma_picks_by_scope(market, scopes, limit, 0, behind);
    assert(scopes.take(0).len() == 0);
    if block.len() < maximum {
        assert(block =~= all);
    }
}

} // verus!
