//! The localized fee market and the fee ledger on concrete transactions.

use std::cmp::Ordering;

use kestrel::mempool::{
    FeeLedger, FeeScope, LocalizedMempool, MempoolError, OrderingPolicy, PendingTransaction,
    PriorityFeePolicy, Settlement, SubmittedTransaction,
};
use kestrel::ordered::OrderedSet;
use kestrel::types::{Address, Hash256};

enum Policy {
    Application,
    Priority,
}

impl OrderingPolicy for Policy {
    fn preference(&self, left: PendingTransaction, right: PendingTransaction) -> Ordering {
        self.compare(&left, &right)
    }

    fn compare(&self, left: &PendingTransaction, right: &PendingTransaction) -> Ordering {
        match self {
            Policy::Application => left
                .transaction
                .policy_data
                .cmp(&right.transaction.policy_data)
                .then_with(|| left.transaction.id.cmp(&right.transaction.id)),
            Policy::Priority => PriorityFeePolicy.compare(left, right),
        }
    }
}

fn submit_and_select(
    pool: &mut LocalizedMempool<Policy>,
    transaction: SubmittedTransaction,
) -> PendingTransaction {
    pool.submit(transaction).unwrap();
    pool.select_block(1).transactions.remove(0)
}

fn transaction(index: u64, object: Hash256, priority: u128) -> SubmittedTransaction {
    transaction_with_sender(index, object, priority, Address::from_bytes([9; 32]))
}

fn transaction_with_sender(
    index: u64,
    object: Hash256,
    priority: u128,
    sender: Address,
) -> SubmittedTransaction {
    SubmittedTransaction {
        id: Hash256::digest(&index.to_be_bytes()),
        sender,
        scope: FeeScope::Object(object),
        touched_objects: OrderedSet::from_keys(&[object]),
        compute_limit: 100,
        max_fee_per_compute: 10_000,
        priority_fee_per_compute: priority,
        arrival_sequence: index,
        policy_data: Vec::new(),
    }
}

#[test]
fn hot_object_does_not_delay_unrelated_scope() {
    let hot = Hash256::digest(b"hot");
    let cold = Hash256::digest(b"cold");
    let mut pool = LocalizedMempool::<Policy>::new(1, 1, 4).unwrap();
    for index in 0_u64..1_000 {
        pool.submit(transaction(index, hot, 1)).unwrap();
    }
    let cold_quote = pool.submit(transaction(2_000, cold, 1)).unwrap();
    assert_eq!(cold_quote.local_base_fee_per_compute, 1);
    let selection = pool.select_block(8);
    let cold_position = selection
        .transactions
        .iter()
        .position(|pending| pending.transaction.scope == FeeScope::Object(cold))
        .unwrap();
    assert!(cold_position <= 1);
    assert_eq!(selection.scope_visits, 10);
    assert_eq!(pool.scope_depth(FeeScope::Object(cold)), 0);
    assert_eq!(pool.scope_depth(FeeScope::Object(hot)), 996);
}

#[test]
fn application_policy_overrides_fee_order_only_for_its_scope() {
    let object = Hash256::digest(b"application");
    let mut pool = LocalizedMempool::<Policy>::new(1, 0, 10).unwrap();
    pool.register_policy(FeeScope::Object(object), Policy::Application)
        .unwrap();
    let mut later = transaction(1, object, 100);
    later.policy_data = vec![2];
    let mut earlier = transaction(2, object, 1);
    earlier.policy_data = vec![1];
    pool.submit(later).unwrap();
    pool.submit(earlier).unwrap();
    let selected = pool.select_block(2);
    assert_eq!(selected.transactions[0].transaction.policy_data, vec![1]);
}

#[test]
fn rejected_policy_replacement_preserves_the_registered_policy() {
    let object = Hash256::digest(b"immutable-application-policy");
    let scope = FeeScope::Object(object);
    let mut pool = LocalizedMempool::<Policy>::new(1, 0, 10).unwrap();
    pool.register_policy(scope, Policy::Application)
        .unwrap();
    assert_eq!(
        pool.register_policy(scope, Policy::Priority),
        Err(MempoolError::PolicyAlreadyRegistered)
    );

    let mut first_by_application = transaction(1, object, 1);
    first_by_application.policy_data = vec![1];
    let mut first_by_fee = transaction(2, object, 100);
    first_by_fee.policy_data = vec![2];
    pool.submit(first_by_fee).unwrap();
    pool.submit(first_by_application).unwrap();
    let selected = pool.select_block(2);
    assert_eq!(selected.transactions[0].transaction.policy_data, vec![1]);
}

#[test]
fn actual_compute_fee_is_fully_transferred_without_burn() {
    let object = Hash256::digest(b"fees");
    let payer = Address::from_bytes([1; 32]);
    let validator = Address::from_bytes([2; 32]);
    let mut pool = LocalizedMempool::<Policy>::new(2, 0, 10).unwrap();
    let mut transaction = transaction_with_sender(1, object, 3, payer);
    transaction.max_fee_per_compute = 10;
    let pending = submit_and_select(&mut pool, transaction);
    let mut ledger = FeeLedger::default();
    ledger.credit(payer, 1_000).unwrap();
    let settlement = pending.settlement();
    ledger
        .reserve_maximum(
            settlement.transaction_id,
            payer,
            settlement.compute_limit,
            10,
        )
        .unwrap();
    assert_eq!(ledger.available_balance(payer), 0);
    ledger.bind_settlement(settlement, validator).unwrap();
    let receipt = ledger.settle(&settlement, 10, validator).unwrap();
    assert_eq!(receipt.unit_price, 5);
    assert_eq!(receipt.charged, 50);
    assert_eq!(receipt.reserved, 1_000);
    assert_eq!(receipt.refunded, 950);
    assert_eq!(ledger.balance(payer), 950);
    assert_eq!(ledger.available_balance(payer), 950);
    assert_eq!(ledger.balance(validator), 50);
    assert_eq!(ledger.balance(payer) + ledger.balance(validator), 1_000);
}

#[test]
fn validator_credit_overflow_is_rejected_before_execution() {
    let object = Hash256::digest(b"atomic-fees");
    let payer = Address::from_bytes([3; 32]);
    let validator = Address::from_bytes([4; 32]);
    let mut pool = LocalizedMempool::<Policy>::new(2, 0, 10).unwrap();
    let mut transaction = transaction_with_sender(1, object, 3, payer);
    transaction.max_fee_per_compute = 10;
    let pending = submit_and_select(&mut pool, transaction);
    let mut ledger = FeeLedger::default();
    ledger.credit(payer, 1_000).unwrap();
    ledger.credit(validator, u128::MAX).unwrap();
    let settlement = pending.settlement();
    ledger
        .reserve_maximum(
            settlement.transaction_id,
            payer,
            settlement.compute_limit,
            10,
        )
        .unwrap();

    assert_eq!(
        ledger.bind_settlement(settlement, validator),
        Err(MempoolError::FeeOverflow)
    );
    assert_eq!(ledger.balance(payer), 1_000);
    assert_eq!(ledger.available_balance(payer), 0);
    assert_eq!(ledger.balance(validator), u128::MAX);
}

#[test]
fn competing_reservations_cannot_spend_the_same_balance() {
    let payer = Address::from_bytes([5; 32]);
    let first = Hash256::digest(b"first");
    let second = Hash256::digest(b"second");
    let mut ledger = FeeLedger::default();
    ledger.credit(payer, 100).unwrap();

    ledger.reserve_maximum(first, payer, 10, 6).unwrap();
    assert_eq!(ledger.available_balance(payer), 40);
    assert_eq!(
        ledger.reserve_maximum(second, payer, 10, 5),
        Err(MempoolError::InsufficientBalance)
    );
    ledger.release(first).unwrap();
    assert_eq!(ledger.available_balance(payer), 100);
    ledger.reserve_maximum(second, payer, 10, 5).unwrap();
}

#[test]
fn reservation_identity_is_idempotent_but_cannot_be_rebound() {
    let payer = Address::from_bytes([6; 32]);
    let transaction = Hash256::digest(b"idempotent");
    let mut ledger = FeeLedger::default();
    ledger.credit(payer, 100).unwrap();

    ledger.reserve_maximum(transaction, payer, 10, 5).unwrap();
    ledger.reserve_maximum(transaction, payer, 10, 5).unwrap();
    assert_eq!(ledger.available_balance(payer), 50);
    assert_eq!(
        ledger.reserve_maximum(transaction, payer, 10, 6),
        Err(MempoolError::ReservationMismatch)
    );
}

#[test]
fn multiple_zero_price_reservations_settle_independently() {
    let payer = Address::from_bytes([7; 32]);
    let validator = Address::from_bytes([8; 32]);
    let mut ledger = FeeLedger::default();

    for label in [b"zero-one".as_slice(), b"zero-two".as_slice()] {
        let transaction_id = Hash256::digest(label);
        let settlement = Settlement {
            transaction_id,
            payer,
            compute_limit: 10,
            local_base_fee_per_compute: 0,
            priority_fee_per_compute: 0,
        };
        ledger
            .reserve_maximum(transaction_id, payer, 10, 0)
            .unwrap();
        ledger.bind_settlement(settlement, validator).unwrap();
    }
    for label in [b"zero-one".as_slice(), b"zero-two".as_slice()] {
        let settlement = Settlement {
            transaction_id: Hash256::digest(label),
            payer,
            compute_limit: 10,
            local_base_fee_per_compute: 0,
            priority_fee_per_compute: 0,
        };
        let receipt = ledger.settle(&settlement, 5, validator).unwrap();
        assert_eq!(receipt.charged, 0);
    }
}

#[test]
fn market_submissions_are_refused_for_each_reason() {
    let object = Hash256::digest(b"reasons");
    assert!(matches!(
        LocalizedMempool::<Policy>::new(1, 1, 0),
        Err(MempoolError::ZeroScopeLimit)
    ));
    let mut pool = LocalizedMempool::<Policy>::new(5, 1, 4).unwrap();
    let mut foreign = transaction(1, object, 1);
    foreign.touched_objects = OrderedSet::new();
    assert_eq!(pool.submit(foreign), Err(MempoolError::InvalidScope));
    let mut idle = transaction(1, object, 1);
    idle.compute_limit = 0;
    assert_eq!(pool.submit(idle), Err(MempoolError::ZeroComputeLimit));
    let mut cheap = transaction(1, object, 3);
    cheap.max_fee_per_compute = 7;
    assert_eq!(
        pool.submit(cheap),
        Err(MempoolError::FeeCapTooLow {
            required: 8,
            offered: 7
        })
    );
    let mut excessive = transaction(1, object, u128::MAX);
    excessive.max_fee_per_compute = u128::MAX;
    assert_eq!(pool.submit(excessive), Err(MempoolError::FeeOverflow));
    let quote = pool.submit(transaction(1, object, 3)).unwrap();
    assert_eq!(quote.local_base_fee_per_compute, 5);
    assert_eq!(quote.effective_fee_per_compute, 8);
    assert_eq!(
        pool.submit(transaction(1, object, 3)),
        Err(MempoolError::DuplicateTransaction)
    );
    let quote = pool.submit(transaction(2, object, 3)).unwrap();
    assert_eq!(quote.local_base_fee_per_compute, 6);
}

#[test]
fn removal_frees_identifiers_and_preview_changes_nothing() {
    let object = Hash256::digest(b"removal");
    let mut pool = LocalizedMempool::<Policy>::new(1, 0, 4).unwrap();
    for index in 0..3 {
        pool.submit(transaction(index, object, u128::from(index))).unwrap();
    }
    assert_eq!(
        pool.preview_block(2),
        vec![
            Hash256::digest(&2_u64.to_be_bytes()),
            Hash256::digest(&1_u64.to_be_bytes())
        ]
    );
    assert_eq!(pool.scope_depth(FeeScope::Object(object)), 3);
    let gone = Hash256::digest(&2_u64.to_be_bytes());
    assert_eq!(pool.remove_transactions(&OrderedSet::from_keys(&[gone])), 1);
    assert_eq!(pool.remove_transactions(&OrderedSet::from_keys(&[gone])), 0);
    assert_eq!(pool.scope_depth(FeeScope::Object(object)), 2);
    pool.submit(transaction(2, object, 2)).unwrap();
    assert_eq!(pool.select_block(1).transactions[0].transaction.id, gone);
}

#[test]
fn settlements_are_refused_for_each_reason() {
    let payer = Address::from_bytes([1; 32]);
    let validator = Address::from_bytes([2; 32]);
    let transaction_id = Hash256::digest(b"settled");
    let settlement = Settlement {
        transaction_id,
        payer,
        compute_limit: 10,
        local_base_fee_per_compute: 2,
        priority_fee_per_compute: 1,
    };
    let mut ledger = FeeLedger::default();
    ledger.credit(payer, 100).unwrap();
    assert_eq!(
        ledger.settle(&settlement, 5, validator),
        Err(MempoolError::MissingReservation)
    );
    ledger.reserve_maximum(transaction_id, payer, 10, 3).unwrap();
    assert_eq!(
        ledger.settle(&settlement, 5, validator),
        Err(MempoolError::MissingSettlementBinding)
    );
    ledger.bind_settlement(settlement, validator).unwrap();
    assert_eq!(
        ledger.settle(&settlement, 11, validator),
        Err(MempoolError::ComputeLimitExceeded)
    );
    assert_eq!(
        ledger.settle(&settlement, 5, payer),
        Err(MempoolError::ReservationMismatch)
    );
    assert_eq!(ledger.settle(&settlement, 5, validator).unwrap().charged, 15);
    assert_eq!(ledger.balance(payer), 85);
    assert_eq!(ledger.balance(validator), 15);
    assert_eq!(ledger.release(transaction_id), Ok(false));
}

#[test]
fn a_bound_settlement_succeeds_whatever_happens_to_others() {
    let payer = Address::from_bytes([1; 32]);
    let validator = Address::from_bytes([2; 32]);
    let other = Address::from_bytes([3; 32]);
    let settlement = |id: &[u8], payer: Address, limit: u64| Settlement {
        transaction_id: Hash256::digest(id),
        payer,
        compute_limit: limit,
        local_base_fee_per_compute: 1,
        priority_fee_per_compute: 0,
    };
    let kept = settlement(b"kept", payer, 10);
    let mut ledger = FeeLedger::default();
    ledger.credit(payer, 10).unwrap();
    ledger.credit(other, 100).unwrap();
    ledger.credit(validator, u128::MAX - 15).unwrap();
    ledger.reserve_maximum(kept.transaction_id, payer, 10, 1).unwrap();
    ledger.bind_settlement(kept, validator).unwrap();
    // Five units of capacity are left for others to bind.
    let large = settlement(b"large", other, 6);
    ledger.reserve_maximum(large.transaction_id, other, 6, 1).unwrap();
    assert_eq!(
        ledger.bind_settlement(large, validator),
        Err(MempoolError::FeeOverflow)
    );
    let small = settlement(b"small", other, 5);
    ledger.reserve_maximum(small.transaction_id, other, 5, 1).unwrap();
    ledger.bind_settlement(small, validator).unwrap();
    assert_eq!(ledger.settle(&small, 5, validator).unwrap().charged, 5);
    ledger.credit(other, u128::MAX - 95).unwrap();
    assert_eq!(ledger.release(large.transaction_id), Ok(true));
    assert_eq!(
        ledger.settle(&kept, 11, validator),
        Err(MempoolError::ComputeLimitExceeded)
    );
    assert_eq!(ledger.settle(&kept, 10, validator).unwrap().charged, 10);
    assert_eq!(ledger.balance(validator), u128::MAX);
}
