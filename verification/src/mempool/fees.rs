//! The fee ledger: balances, maximum-charge reservations and settlements.

use vstd::prelude::*;

use crate::mempool::errors::MempoolError;
use crate::ordered::{lemma_sum_insert, lemma_sum_remove, lemma_sum_replace, sum_over, OrderedMap};
use crate::types::{Address, Hash256};

verus! {

/// Minimal per-transaction data needed to settle a metered fee, decoupled from
/// the mempool's own admission-scoped record so callers that never build one,
/// such as a block lifecycle that learns the certified base fee from a
/// committed block, can settle directly from the fields this actually uses.
#[derive(Clone, Copy, Debug, PartialEq, Eq)]
pub struct Settlement {
    pub transaction_id: Hash256,
    pub payer: Address,
    pub compute_limit: u64,
    pub local_base_fee_per_compute: u128,
    pub priority_fee_per_compute: u128,
}

/// What a settled transaction was charged.
#[derive(Clone, Copy, Debug, PartialEq, Eq)]
pub struct FeeReceipt {
    pub transaction_id: Hash256,
    pub payer: Address,
    pub validator: Address,
    pub actual_compute: u64,
    pub unit_price: u128,
    pub charged: u128,
    pub reserved: u128,
    pub refunded: u128,
}

/// A certified price and the validator that it is paid to.
#[derive(Clone, Copy, Debug, PartialEq, Eq)]
pub struct SettlementBinding {
    pub settlement: Settlement,
    pub validator: Address,
    pub maximum_charge: u128,
}

/// The most that a signed transaction may be charged, locked at its payer.
#[derive(Clone, Copy, Debug, PartialEq, Eq)]
pub struct FeeReservation {
    pub transaction_id: Hash256,
    pub payer: Address,
    pub compute_limit: u64,
    pub max_fee_per_compute: u128,
    pub amount: u128,
    pub settlement: Option<SettlementBinding>,
}

/// The price of one compute unit.
pub open spec fn unit_price(settlement: Settlement) -> nat {
    (settlement.local_base_fee_per_compute + settlement.priority_fee_per_compute) as nat
}

/// The value of a ledger.
#[verifier::ext_equal]
pub struct LedgerModel {
    pub balances: Map<Address, u128>,
    pub reservations: Map<Hash256, FeeReservation>,
}

/// The amount stored under an address; nothing stored is zero.
pub open spec fn amount_at(amounts: Map<Address, u128>, address: Address) -> nat {
    if amounts.contains_key(address) {
        amounts[address] as nat
    } else {
        0
    }
}

/// What a reservation locks at a payer.
pub open spec fn locked_at(payer: Address) -> spec_fn(FeeReservation) -> nat {
    |reservation: FeeReservation|
        if reservation.payer == payer {
            reservation.amount as nat
        } else {
            0
        }
}

/// What a bound reservation may credit to a validator other than its payer.
pub open spec fn creditable_at(validator: Address) -> spec_fn(FeeReservation) -> nat {
    |reservation: FeeReservation|
        match reservation.settlement {
            Some(binding) => if binding.validator == validator && validator != reservation.payer {
                binding.maximum_charge as nat
            } else {
                0
            },
            None => 0,
        }
}

/// Everything locked at a payer.
pub open spec fn reserved_for(ledger: LedgerModel, payer: Address) -> nat {
    sum_over(ledger.reservations, locked_at(payer))
}

/// Everything that may still be credited to a validator.
pub open spec fn pending_credit(ledger: LedgerModel, validator: Address) -> nat {
    sum_over(ledger.reservations, creditable_at(validator))
}

/// A reservation is sound under its identifier: it locks exactly the signed
/// maximum, and a binding to it stays within that maximum.
pub open spec fn sound_reservation(id: Hash256, reservation: FeeReservation) -> bool {
    &&& reservation.transaction_id == id
    &&& reservation.amount == reservation.max_fee_per_compute * reservation.compute_limit
    &&& reservation.settlement matches Some(binding) ==> {
        &&& binding.settlement.transaction_id == id
        &&& binding.settlement.payer == reservation.payer
        &&& binding.settlement.compute_limit == reservation.compute_limit
        &&& unit_price(binding.settlement) <= reservation.max_fee_per_compute
        &&& binding.maximum_charge == unit_price(binding.settlement) * reservation.compute_limit
        &&& binding.maximum_charge <= reservation.amount
    }
}

/// No payer has more locked than it owns, and every reservation is sound.
pub open spec fn sound_ledger(ledger: LedgerModel) -> bool {
    &&& ledger.reservations.dom().finite()
    &&& forall|id: Hash256| #[trigger]
        ledger.reservations.contains_key(id) ==> sound_reservation(id, ledger.reservations[id])
    &&& forall|payer: Address| #[trigger]
        reserved_for(ledger, payer) <= amount_at(ledger.balances, payer)
}

/// What crediting an address gives.
pub open spec fn credit_result(ledger: LedgerModel, address: Address, amount: u128) -> Result<
    (),
    MempoolError,
> {
    if amount_at(ledger.balances, address) + amount > u128::MAX {
        Err(MempoolError::FeeOverflow)
    } else {
        Ok(())
    }
}

/// The ledger after an address was credited.
pub open spec fn credited(ledger: LedgerModel, address: Address, amount: u128) -> LedgerModel {
    LedgerModel {
        balances: ledger.balances.insert(
            address,
            (amount_at(ledger.balances, address) + amount) as u128,
        ),
        ..ledger
    }
}

/// What reserving a maximum charge gives.
pub open spec fn reserve_result(
    ledger: LedgerModel,
    id: Hash256,
    payer: Address,
    compute_limit: u64,
    max_fee: u128,
) -> Result<(), MempoolError> {
    let amount = max_fee * compute_limit;
    if amount > u128::MAX {
        Err(MempoolError::FeeOverflow)
    } else if ledger.reservations.contains_key(id) {
        let existing = ledger.reservations[id];
        if existing.payer == payer && existing.compute_limit == compute_limit
            && existing.max_fee_per_compute == max_fee {
            Ok(())
        } else {
            Err(MempoolError::ReservationMismatch)
        }
    } else if reserved_for(ledger, payer) + amount > u128::MAX {
        Err(MempoolError::FeeOverflow)
    } else if reserved_for(ledger, payer) + amount > amount_at(ledger.balances, payer) {
        Err(MempoolError::InsufficientBalance)
    } else {
        Ok(())
    }
}

/// The ledger after a maximum charge was reserved.
pub open spec fn reserved(
    ledger: LedgerModel,
    id: Hash256,
    payer: Address,
    compute_limit: u64,
    max_fee: u128,
) -> LedgerModel {
    if ledger.reservations.contains_key(id) {
        ledger
    } else {
        LedgerModel {
            reservations: ledger.reservations.insert(
                id,
                FeeReservation {
                    transaction_id: id,
                    payer,
                    compute_limit,
                    max_fee_per_compute: max_fee,
                    amount: (max_fee * compute_limit) as u128,
                    settlement: None,
                },
            ),
            ..ledger
        }
    }
}

/// The binding that a certified settlement makes.
pub open spec fn binding_of(settlement: Settlement, validator: Address) -> SettlementBinding {
    SettlementBinding {
        settlement,
        validator,
        maximum_charge: (unit_price(settlement) * settlement.compute_limit) as u128,
    }
}

/// What binding a reservation to a certified settlement gives.
pub open spec fn bind_result(
    ledger: LedgerModel,
    settlement: Settlement,
    validator: Address,
) -> Result<(), MempoolError> {
    let price = unit_price(settlement);
    let charge = price * settlement.compute_limit;
    if price > u128::MAX || charge > u128::MAX {
        Err(MempoolError::FeeOverflow)
    } else if !ledger.reservations.contains_key(settlement.transaction_id) {
        Err(MempoolError::MissingReservation)
    } else {
        let reservation = ledger.reservations[settlement.transaction_id];
        if reservation.payer != settlement.payer || reservation.compute_limit
            != settlement.compute_limit || price > reservation.max_fee_per_compute || charge
            > reservation.amount {
            Err(MempoolError::ReservationMismatch)
        } else {
            match reservation.settlement {
                Some(existing) => if existing == binding_of(settlement, validator) {
                    Ok(())
                } else {
                    Err(MempoolError::ReservationMismatch)
                },
                None => if settlement.payer != validator && amount_at(ledger.balances, validator)
                    + pending_credit(ledger, validator) + charge > u128::MAX {
                    Err(MempoolError::FeeOverflow)
                } else {
                    Ok(())
                },
            }
        }
    }
}

/// The ledger after a reservation was bound.
pub open spec fn bound(
    ledger: LedgerModel,
    settlement: Settlement,
    validator: Address,
) -> LedgerModel {
    let id = settlement.transaction_id;
    LedgerModel {
        reservations: ledger.reservations.insert(
            id,
            FeeReservation {
                settlement: Some(binding_of(settlement, validator)),
                ..ledger.reservations[id]
            },
        ),
        ..ledger
    }
}

/// The ledger without a reservation.
pub open spec fn released(ledger: LedgerModel, id: Hash256) -> LedgerModel {
    LedgerModel { reservations: ledger.reservations.remove(id), ..ledger }
}

/// What settling a bound reservation gives.
pub open spec fn settle_result(
    ledger: LedgerModel,
    settlement: Settlement,
    actual_compute: u64,
    validator: Address,
) -> Result<FeeReceipt, MempoolError> {
    let id = settlement.transaction_id;
    let charged = unit_price(settlement) * actual_compute;
    if actual_compute > settlement.compute_limit {
        Err(MempoolError::ComputeLimitExceeded)
    } else if !ledger.reservations.contains_key(id) {
        Err(MempoolError::MissingReservation)
    } else {
        let reservation = ledger.reservations[id];
        match reservation.settlement {
            None => Err(MempoolError::MissingSettlementBinding),
            Some(binding) => if binding.settlement != settlement || binding.validator
                != validator {
                Err(MempoolError::ReservationMismatch)
            } else if settlement.payer != validator && amount_at(ledger.balances, validator)
                + charged > u128::MAX {
                Err(MempoolError::FeeOverflow)
            } else {
                Ok(
                    FeeReceipt {
                        transaction_id: id,
                        payer: settlement.payer,
                        validator,
                        actual_compute,
                        unit_price: unit_price(settlement) as u128,
                        charged: charged as u128,
                        reserved: reservation.amount,
                        refunded: (reservation.amount - charged) as u128,
                    },
                )
            },
        }
    }
}

/// The ledger after a settlement: the payer is charged, the validator credited
/// and the reservation gone.
pub open spec fn settled(
    ledger: LedgerModel,
    settlement: Settlement,
    actual_compute: u64,
    validator: Address,
) -> LedgerModel {
    let charged = unit_price(settlement) * actual_compute;
    let payer = settlement.payer;
    LedgerModel {
        balances: if payer == validator {
            ledger.balances
        } else {
            ledger.balances.insert(
                payer,
                (amount_at(ledger.balances, payer) - charged) as u128,
            ).insert(validator, (amount_at(ledger.balances, validator) + charged) as u128)
        },
        reservations: ledger.reservations.remove(settlement.transaction_id),
    }
}

/// Whether two settlements are the same.
fn same_settlement(left: &Settlement, right: &Settlement) -> (same: bool)
    ensures
        same == (*left == *right),
{
    left.transaction_id == right.transaction_id && left.payer == right.payer && left.compute_limit
        == right.compute_limit && left.local_base_fee_per_compute
        == right.local_base_fee_per_compute && left.priority_fee_per_compute
        == right.priority_fee_per_compute
}

/// The amount stored under an address; nothing stored is zero.
fn read_amount(amounts: &OrderedMap<Address, u128>, address: &Address) -> (amount: u128)
    ensures
        amount == amount_at(amounts@, *address),
{
    match amounts.get(address) {
        Some(amount) => *amount,
        None => 0,
    }
}

/// Takes `amount` off the aggregate of an address, which holds at least that much.
fn subtract_accounting(
    accounting: &mut OrderedMap<Address, u128>,
    address: Address,
    amount: u128,
) -> (result: Result<(), MempoolError>)
    ensures
        match result {
            Ok(()) => {
                &&& amount <= amount_at(old(accounting)@, address)
                &&& amount_at(final(accounting)@, address) + amount == amount_at(
                    old(accounting)@,
                    address,
                )
                &&& forall|other: Address| #![trigger amount_at(final(accounting)@, other)]
                    other != address ==> amount_at(final(accounting)@, other) == amount_at(
                        old(accounting)@,
                        other,
                    )
            },
            Err(error) => amount > amount_at(old(accounting)@, address) && error
                == MempoolError::ReservationMismatch && final(accounting)@ == old(accounting)@,
        },
{
    // Zero-priced transactions create valid zero-value reservations. Multiple
    // such reservations may share an address without creating positive
    // aggregate accounting, so releasing one must not require a map entry that
    // another zero-value release may already have removed.
    if amount == 0 {
        return Ok(());
    }
    let current: u128 = match accounting.get(&address) {
        Some(current) => *current,
        None => {
            return Err(MempoolError::ReservationMismatch);
        },
    };
    if current < amount {
        return Err(MempoolError::ReservationMismatch);
    }
    if current == amount {
        let _ = accounting.remove(&address);
    } else {
        let _ = accounting.insert(address, current - amount);
    }
    Ok(())
}

/// Conserved fee balances. Every charged unit is credited to the validator.
#[derive(Debug, PartialEq, Eq)]
pub struct FeeLedger {
    balances: OrderedMap<Address, u128>,
    reservations: OrderedMap<Hash256, FeeReservation>,
    reserved_by_payer: OrderedMap<Address, u128>,
    reserved_validator_credits: OrderedMap<Address, u128>,
}

impl View for FeeLedger {
    type V = LedgerModel;

    closed spec fn view(&self) -> LedgerModel {
        LedgerModel { balances: self.balances@, reservations: self.reservations@ }
    }
}

impl Default for FeeLedger {
    fn default() -> (ledger: Self)
        ensures
            ledger.wf(),
            ledger@ == (LedgerModel { balances: Map::empty(), reservations: Map::empty() }),
    {
        FeeLedger::from_balances(OrderedMap::new())
    }
}

impl FeeLedger {
    /// The aggregates agree with the reservations, which are sound.
    pub closed spec fn wf(&self) -> bool {
        &&& sound_ledger(self@)
        &&& forall|payer: Address| #[trigger]
            amount_at(self.reserved_by_payer@, payer) == reserved_for(self@, payer)
        &&& forall|validator: Address| #[trigger]
            amount_at(self.reserved_validator_credits@, validator) == pending_credit(
                self@,
                validator,
            )
    }

    /// In a well-formed ledger no payer has more locked than it owns.
    pub proof fn lemma_wf_is_sound(&self)
        requires
            self.wf(),
        ensures
            sound_ledger(self@),
    {
    }

    /// Restores a ledger from durably persisted or genesis-seeded balances.
    pub fn from_balances(balances: OrderedMap<Address, u128>) -> (ledger: Self)
        ensures
            ledger.wf(),
            ledger@ == (LedgerModel { balances: balances@, reservations: Map::empty() }),
    {
        let ledger = FeeLedger {
            balances,
            reservations: OrderedMap::new(),
            reserved_by_payer: OrderedMap::new(),
            reserved_validator_credits: OrderedMap::new(),
        };
        assert(ledger@.reservations.dom() =~= Set::<Hash256>::empty());
        ledger
    }

    /// Returns the full balance table for durable persistence.
    pub fn balances(&self) -> (balances: &OrderedMap<Address, u128>)
        ensures
            balances@ == self@.balances,
    {
        &self.balances
    }

    /// Credits `amount` to `address`.
    ///
    /// # Errors
    ///
    /// Returns [`MempoolError::FeeOverflow`] if the resulting balance exceeds
    /// `u128::MAX`.
    pub fn credit(&mut self, address: Address, amount: u128) -> (result: Result<(), MempoolError>)
        requires
            old(self).wf(),
        ensures
            final(self).wf(),
            result == credit_result(old(self)@, address, amount),
            final(self)@ == (if result is Ok {
                credited(old(self)@, address, amount)
            } else {
                old(self)@
            }),
    {
        let ghost before = self@;
        match read_amount(&self.balances, &address).checked_add(amount) {
            Some(balance) => {
                let _ = self.balances.insert(address, balance);
                proof {
                    assert forall|payer: Address| #[trigger]
                        reserved_for(self@, payer) <= amount_at(self@.balances, payer) by {
                        assert(reserved_for(before, payer) <= amount_at(before.balances, payer));
                        assert(reserved_for(self@, payer) == reserved_for(before, payer));
                    }
                    assert forall|payer: Address| #[trigger]
                        amount_at(self.reserved_by_payer@, payer) == reserved_for(self@, payer) by {
                        assert(reserved_for(self@, payer) == reserved_for(before, payer));
                    }
                    assert forall|validator: Address| #[trigger]
                        amount_at(self.reserved_validator_credits@, validator) == pending_credit(
                            self@,
                            validator,
                        ) by {
                        assert(pending_credit(self@, validator) == pending_credit(
                            before,
                            validator,
                        ));
                    }
                }
                Ok(())
            },
            None => Err(MempoolError::FeeOverflow),
        }
    }

    /// The balance of an address.
    pub fn balance(&self, address: Address) -> (balance: u128)
        ensures
            balance == amount_at(self@.balances, address),
    {
        read_amount(&self.balances, &address)
    }

    /// Returns funds not locked by admitted transactions.
    pub fn available_balance(&self, address: Address) -> (available: u128)
        requires
            self.wf(),
        ensures
            available == amount_at(self@.balances, address) - reserved_for(self@, address),
    {
        proof {
            assert(amount_at(self.reserved_by_payer@, address) == reserved_for(self@, address));
            assert(reserved_for(self@, address) <= amount_at(self@.balances, address));
        }
        self.balance(address).saturating_sub(read_amount(&self.reserved_by_payer, &address))
    }

    /// Locks the maximum amount the signed envelope permits the transaction to
    /// pay. Repeating the identical reservation is idempotent so gossip,
    /// reconstructed payloads, and restart replay can converge safely.
    ///
    /// # Errors
    ///
    /// Rejects arithmetic overflow, conflicting reuse of a transaction ID, or
    /// a payer whose unreserved balance cannot cover the maximum charge.
    pub fn reserve_maximum(
        &mut self,
        transaction_id: Hash256,
        payer: Address,
        compute_limit: u64,
        max_fee_per_compute: u128,
    ) -> (result: Result<(), MempoolError>)
        requires
            old(self).wf(),
        ensures
            final(self).wf(),
            result == reserve_result(
                old(self)@,
                transaction_id,
                payer,
                compute_limit,
                max_fee_per_compute,
            ),
            final(self)@ == (if result is Ok {
                reserved(old(self)@, transaction_id, payer, compute_limit, max_fee_per_compute)
            } else {
                old(self)@
            }),
    {
        let ghost before = self@;
        let amount: u128 = match max_fee_per_compute.checked_mul(compute_limit as u128) {
            Some(amount) => amount,
            None => {
                return Err(MempoolError::FeeOverflow);
            },
        };
        if let Some(existing) = self.reservations.get(&transaction_id) {
            if existing.payer == payer && existing.compute_limit == compute_limit
                && existing.max_fee_per_compute == max_fee_per_compute {
                return Ok(());
            } else {
                return Err(MempoolError::ReservationMismatch);
            }
        }
        let already_reserved: u128 = read_amount(&self.reserved_by_payer, &payer);
        assert(already_reserved == reserved_for(self@, payer));
        let total_reserved: u128 = match already_reserved.checked_add(amount) {
            Some(total) => total,
            None => {
                return Err(MempoolError::FeeOverflow);
            },
        };
        if total_reserved > self.balance(payer) {
            return Err(MempoolError::InsufficientBalance);
        }
        let reservation = FeeReservation {
            transaction_id,
            payer,
            compute_limit,
            max_fee_per_compute,
            amount,
            settlement: None,
        };
        let ghost payers = self.reserved_by_payer@;
        let _ = self.reserved_by_payer.insert(payer, total_reserved);
        let _ = self.reservations.insert(transaction_id, reservation);
        proof {
            assert forall|other: Address| #[trigger]
                amount_at(self.reserved_by_payer@, other) == reserved_for(self@, other) by {
                lemma_sum_insert(
                    before.reservations,
                    locked_at(other),
                    transaction_id,
                    reservation,
                );
                assert(amount_at(payers, other) == reserved_for(before, other));
            }
            assert forall|other: Address| #[trigger]
                reserved_for(self@, other) <= amount_at(self@.balances, other) by {
                assert(reserved_for(before, other) <= amount_at(before.balances, other));
                assert(amount_at(self.reserved_by_payer@, other) == reserved_for(self@, other));
                assert(amount_at(payers, other) == reserved_for(before, other));
            }
            assert forall|other: Address| #[trigger]
                amount_at(self.reserved_validator_credits@, other) == pending_credit(
                    self@,
                    other,
                ) by {
                lemma_sum_insert(
                    before.reservations,
                    creditable_at(other),
                    transaction_id,
                    reservation,
                );
                assert(amount_at(self.reserved_validator_credits@, other) == pending_credit(
                    before,
                    other,
                ));
            }
        }
        Ok(())
    }

    /// Binds an existing maximum reservation to the certified unit price and
    /// block leader. Reserving the leader's worst-case credit here guarantees
    /// that settlement cannot overflow after execution.
    ///
    /// # Errors
    ///
    /// Rejects missing/mismatched reservations, a certified price above the
    /// signed cap, or insufficient credit capacity at the validator.
    pub fn bind_settlement(&mut self, settlement: Settlement, validator: Address) -> (result: Result<
        (),
        MempoolError,
    >)
        requires
            old(self).wf(),
        ensures
            final(self).wf(),
            result == bind_result(old(self)@, settlement, validator),
            final(self)@ == (if result is Ok {
                bound(old(self)@, settlement, validator)
            } else {
                old(self)@
            }),
    {
        let ghost before = self@;
        let price: u128 = match settlement.local_base_fee_per_compute.checked_add(
            settlement.priority_fee_per_compute,
        ) {
            Some(price) => price,
            None => {
                return Err(MempoolError::FeeOverflow);
            },
        };
        let maximum_charge: u128 = match price.checked_mul(settlement.compute_limit as u128) {
            Some(charge) => charge,
            None => {
                return Err(MempoolError::FeeOverflow);
            },
        };
        let reservation = match self.reservations.get(&settlement.transaction_id) {
            Some(reservation) => *reservation,
            None => {
                return Err(MempoolError::MissingReservation);
            },
        };
        if reservation.payer != settlement.payer || reservation.compute_limit
            != settlement.compute_limit || price > reservation.max_fee_per_compute
            || maximum_charge > reservation.amount {
            return Err(MempoolError::ReservationMismatch);
        }
        let binding = SettlementBinding { settlement, validator, maximum_charge };
        assert(binding == binding_of(settlement, validator));
        if let Some(existing) = reservation.settlement {
            if same_settlement(&existing.settlement, &settlement) && existing.validator == validator
                && existing.maximum_charge == maximum_charge {
                assert(bound(before, settlement, validator).reservations
                    =~= before.reservations);
                return Ok(());
            } else {
                return Err(MempoolError::ReservationMismatch);
            }
        }
        let ghost credits = self.reserved_validator_credits@;
        if settlement.payer != validator {
            let reserved_credit: u128 = read_amount(&self.reserved_validator_credits, &validator);
            assert(reserved_credit == pending_credit(self@, validator));
            let total_credit: u128 = match reserved_credit.checked_add(maximum_charge) {
                Some(total) => total,
                None => {
                    return Err(MempoolError::FeeOverflow);
                },
            };
            if self.balance(validator).checked_add(total_credit).is_none() {
                return Err(MempoolError::FeeOverflow);
            }
            let _ = self.reserved_validator_credits.insert(validator, total_credit);
        }
        let rebound = FeeReservation {
            transaction_id: reservation.transaction_id,
            payer: reservation.payer,
            compute_limit: reservation.compute_limit,
            max_fee_per_compute: reservation.max_fee_per_compute,
            amount: reservation.amount,
            settlement: Some(binding),
        };
        let _ = self.reservations.insert(settlement.transaction_id, rebound);
        proof {
            let id = settlement.transaction_id;
            assert(sound_reservation(id, reservation));
            assert(sound_reservation(id, rebound));
            assert forall|other: Address| #[trigger]
                amount_at(self.reserved_by_payer@, other) == reserved_for(self@, other) by {
                lemma_sum_replace(before.reservations, locked_at(other), id, rebound);
                assert(amount_at(self.reserved_by_payer@, other) == reserved_for(before, other));
            }
            assert forall|other: Address| #[trigger]
                reserved_for(self@, other) <= amount_at(self@.balances, other) by {
                assert(reserved_for(before, other) <= amount_at(before.balances, other));
                assert(amount_at(self.reserved_by_payer@, other) == reserved_for(self@, other));
                assert(amount_at(self.reserved_by_payer@, other) == reserved_for(before, other));
            }
            assert forall|other: Address| #[trigger]
                amount_at(self.reserved_validator_credits@, other) == pending_credit(
                    self@,
                    other,
                ) by {
                lemma_sum_replace(before.reservations, creditable_at(other), id, rebound);
                assert(amount_at(credits, other) == pending_credit(before, other));
            }
        }
        Ok(())
    }

    /// Releases a noncanonical admission and makes its maximum charge available
    /// to the payer again. The aggregates of a well-formed ledger always cover
    /// what a reservation recorded, so there is no accounting mismatch.
    pub fn release(&mut self, transaction_id: Hash256) -> (result: Result<bool, MempoolError>)
        requires
            old(self).wf(),
        ensures
            final(self).wf(),
            result == Ok::<bool, MempoolError>(
                old(self)@.reservations.contains_key(transaction_id),
            ),
            final(self)@ == released(old(self)@, transaction_id),
    {
        let ghost before = self@;
        let ghost payers = self.reserved_by_payer@;
        let ghost credits = self.reserved_validator_credits@;
        let reservation = match self.reservations.remove(&transaction_id) {
            Some(reservation) => reservation,
            None => {
                assert(before.reservations.remove(transaction_id) =~= before.reservations);
                return Ok(false);
            },
        };
        proof {
            let id = transaction_id;
            lemma_sum_remove(before.reservations, locked_at(reservation.payer), id);
            assert(amount_at(payers, reservation.payer) == reserved_for(
                before,
                reservation.payer,
            ));
            if let Some(binding) = reservation.settlement {
                lemma_sum_remove(before.reservations, creditable_at(binding.validator), id);
                assert(amount_at(credits, binding.validator) == pending_credit(
                    before,
                    binding.validator,
                ));
            }
        }
        match subtract_accounting(
            &mut self.reserved_by_payer,
            reservation.payer,
            reservation.amount,
        ) {
            Ok(()) => {},
            Err(error) => {
                return Err(error);
            },
        }
        if let Some(binding) = reservation.settlement {
            if binding.validator != reservation.payer {
                match subtract_accounting(
                    &mut self.reserved_validator_credits,
                    binding.validator,
                    binding.maximum_charge,
                ) {
                    Ok(()) => {},
                    Err(error) => {
                        return Err(error);
                    },
                }
            }
        }
        proof {
            lemma_released_sound(before, transaction_id);
            assert forall|other: Address| #[trigger]
                amount_at(self.reserved_by_payer@, other) == reserved_for(self@, other) by {
                lemma_sum_remove(before.reservations, locked_at(other), transaction_id);
                assert(amount_at(payers, other) == reserved_for(before, other));
            }
            assert forall|other: Address| #[trigger]
                amount_at(self.reserved_validator_credits@, other) == pending_credit(
                    self@,
                    other,
                ) by {
                lemma_sum_remove(before.reservations, creditable_at(other), transaction_id);
                assert(amount_at(credits, other) == pending_credit(before, other));
            }
        }
        Ok(true)
    }

    /// Charges actual compute from a prior reservation, credits the certified
    /// validator, and releases the unused maximum back to the payer.
    ///
    /// # Errors
    ///
    /// Rejects a missing/mismatched reservation or an executor result above the
    /// signed compute limit. Balance failures are prevented by
    /// `reserve_maximum` plus `bind_settlement`; a credit that the validator
    /// received after the binding can still leave no room for the fee.
    pub fn settle(&mut self, settlement: &Settlement, actual_compute: u64, validator: Address) -> (result:
        Result<FeeReceipt, MempoolError>)
        requires
            old(self).wf(),
        ensures
            final(self).wf(),
            result == settle_result(old(self)@, *settlement, actual_compute, validator),
            final(self)@ == (if result is Ok {
                settled(old(self)@, *settlement, actual_compute, validator)
            } else {
                old(self)@
            }),
    {
        let ghost before = self@;
        if actual_compute > settlement.compute_limit {
            return Err(MempoolError::ComputeLimitExceeded);
        }
        let id = settlement.transaction_id;
        let reservation = match self.reservations.get(&id) {
            Some(reservation) => *reservation,
            None => {
                return Err(MempoolError::MissingReservation);
            },
        };
        let binding = match reservation.settlement {
            Some(binding) => binding,
            None => {
                return Err(MempoolError::MissingSettlementBinding);
            },
        };
        if !same_settlement(&binding.settlement, settlement) || binding.validator != validator {
            return Err(MempoolError::ReservationMismatch);
        }
        let payer = settlement.payer;
        proof {
            assert(sound_reservation(id, reservation));
            lemma_charge_within_maximum(*settlement, actual_compute);
            lemma_sum_remove(before.reservations, locked_at(payer), id);
            assert(reserved_for(before, payer) <= amount_at(before.balances, payer));
        }
        let price: u128 = settlement.local_base_fee_per_compute
            + settlement.priority_fee_per_compute;
        let charged: u128 = price * actual_compute as u128;
        let payer_balance: u128 = self.balance(payer);
        let debited: u128 = payer_balance - charged;
        if payer != validator {
            let credited: u128 = match self.balance(validator).checked_add(charged) {
                Some(credited) => credited,
                None => {
                    return Err(MempoolError::FeeOverflow);
                },
            };
            proof {
                lemma_released_sound(before, id);
                assert forall|other: Address| #[trigger]
                    reserved_for(released(before, id), other) <= amount_at(
                        settled(before, *settlement, actual_compute, validator).balances,
                        other,
                    ) by {
                    assert(reserved_for(before, other) <= amount_at(before.balances, other));
                    lemma_sum_remove(before.reservations, locked_at(other), id);
                }
            }
            // The reservation goes first: what stays locked is covered by what the
            // payer has left.
            let _ = self.release(id);
            let ghost middle = self@;
            let _ = self.balances.insert(payer, debited);
            let _ = self.balances.insert(validator, credited);
            proof {
                assert(self@ =~= settled(before, *settlement, actual_compute, validator));
                assert forall|other: Address| #[trigger]
                    reserved_for(self@, other) <= amount_at(self@.balances, other) by {
                    assert(reserved_for(self@, other) == reserved_for(released(before, id), other));
                }
                assert forall|other: Address| #[trigger]
                    amount_at(self.reserved_by_payer@, other) == reserved_for(self@, other) by {
                    assert(reserved_for(self@, other) == reserved_for(middle, other));
                }
                assert forall|other: Address| #[trigger]
                    amount_at(self.reserved_validator_credits@, other) == pending_credit(
                        self@,
                        other,
                    ) by {
                    assert(pending_credit(self@, other) == pending_credit(middle, other));
                }
            }
        } else {
            let _ = self.release(id);
            assert(self@ =~= settled(before, *settlement, actual_compute, validator));
        }
        Ok(
            FeeReceipt {
                transaction_id: id,
                payer,
                validator,
                actual_compute,
                unit_price: price,
                charged,
                reserved: reservation.amount,
                refunded: reservation.amount - charged,
            },
        )
    }
}

/// Compute within the limit is charged within the maximum.
proof fn lemma_charge_within_maximum(settlement: Settlement, actual_compute: u64)
    requires
        actual_compute <= settlement.compute_limit,
    ensures
        0 <= unit_price(settlement) * actual_compute <= unit_price(settlement)
            * settlement.compute_limit,
{
    let price = unit_price(settlement) as int;
    let actual = actual_compute as int;
    let limit = settlement.compute_limit as int;
    assert(0 <= price * actual <= price * limit) by (nonlinear_arith)
        requires
            0 <= price,
            0 <= actual <= limit,
    ;
}

/// A ledger stays sound without one of its reservations.
proof fn lemma_released_sound(ledger: LedgerModel, id: Hash256)
    requires
        sound_ledger(ledger),
    ensures
        sound_ledger(released(ledger, id)),
{
    let after = released(ledger, id);
    assert forall|payer: Address| #[trigger]
        reserved_for(after, payer) <= amount_at(after.balances, payer) by {
        assert(reserved_for(ledger, payer) <= amount_at(ledger.balances, payer));
        if ledger.reservations.contains_key(id) {
            lemma_sum_remove(ledger.reservations, locked_at(payer), id);
        } else {
            assert(ledger.reservations.remove(id) =~= ledger.reservations);
        }
    }
}

/// What all accounts own together.
pub open spec fn circulating(balances: Map<Address, u128>) -> nat {
    sum_over(balances, |balance: u128| balance as nat)
}

/// Fees are conserved: a settlement neither burns nor mints. What the payer
/// loses the validator gains, nobody else's balance changes, and the sum of
/// all balances stays the same.
pub proof fn law_settlement_conserves_balances(
    ledger: LedgerModel,
    settlement: Settlement,
    actual_compute: u64,
    validator: Address,
)
    requires
        sound_ledger(ledger),
        ledger.balances.dom().finite(),
        settle_result(ledger, settlement, actual_compute, validator) is Ok,
    ensures
        ({
            let after = settled(ledger, settlement, actual_compute, validator);
            let receipt = settle_result(ledger, settlement, actual_compute, validator).unwrap();
            &&& circulating(after.balances) == circulating(ledger.balances)
            &&& settlement.payer != validator ==> amount_at(after.balances, settlement.payer)
                + receipt.charged == amount_at(ledger.balances, settlement.payer)
            &&& settlement.payer != validator ==> amount_at(after.balances, validator) == amount_at(
                ledger.balances,
                validator,
            ) + receipt.charged
            &&& settlement.payer == validator ==> after.balances == ledger.balances
            &&& forall|other: Address| #![trigger amount_at(after.balances, other)]
                other != settlement.payer && other != validator ==> amount_at(after.balances, other)
                    == amount_at(ledger.balances, other)
            &&& receipt.charged + receipt.refunded == receipt.reserved
        }),
{
    let id = settlement.transaction_id;
    let payer = settlement.payer;
    let reservation = ledger.reservations[id];
    let charged = unit_price(settlement) * actual_compute;
    assert(sound_reservation(id, reservation));
    lemma_charge_within_maximum(settlement, actual_compute);
    lemma_sum_remove(ledger.reservations, locked_at(payer), id);
    assert(reserved_for(ledger, payer) <= amount_at(ledger.balances, payer));
    if payer != validator {
        let weight = |balance: u128| balance as nat;
        let debited = (amount_at(ledger.balances, payer) - charged) as u128;
        let credited = (amount_at(ledger.balances, validator) + charged) as u128;
        let middle = ledger.balances.insert(payer, debited);
        lemma_put(ledger.balances, payer, debited);
        lemma_put(middle, validator, credited);
    }
}

/// Storing an amount exchanges what an address had in the sum of all amounts.
pub proof fn lemma_put(amounts: Map<Address, u128>, address: Address, amount: u128)
    requires
        amounts.dom().finite(),
    ensures
        circulating(amounts.insert(address, amount)) + amount_at(amounts, address) == circulating(
            amounts,
        ) + amount,
{
    let weight = |balance: u128| balance as nat;
    if amounts.contains_key(address) {
        lemma_sum_replace(amounts, weight, address, amount);
    } else {
        lemma_sum_insert(amounts, weight, address, amount);
    }
}

/// Repeating an identical reservation changes nothing and succeeds again.
pub proof fn law_reservation_is_idempotent(
    ledger: LedgerModel,
    id: Hash256,
    payer: Address,
    compute_limit: u64,
    max_fee: u128,
)
    requires
        reserve_result(ledger, id, payer, compute_limit, max_fee) is Ok,
    ensures
        ({
            let after = reserved(ledger, id, payer, compute_limit, max_fee);
            &&& reserve_result(after, id, payer, compute_limit, max_fee) is Ok
            &&& reserved(after, id, payer, compute_limit, max_fee) == after
        }),
{
}

/// Releasing a fresh reservation restores the ledger as it was.
pub proof fn law_release_undoes_reserve(
    ledger: LedgerModel,
    id: Hash256,
    payer: Address,
    compute_limit: u64,
    max_fee: u128,
)
    requires
        reserve_result(ledger, id, payer, compute_limit, max_fee) is Ok,
        !ledger.reservations.contains_key(id),
    ensures
        released(reserved(ledger, id, payer, compute_limit, max_fee), id) == ledger,
{
    let after = released(reserved(ledger, id, payer, compute_limit, max_fee), id);
    assert(after.reservations =~= ledger.reservations);
}

/// Whether everything that may still be credited to a validator fits its balance.
pub open spec fn credit_room(ledger: LedgerModel, validator: Address) -> bool {
    amount_at(ledger.balances, validator) + pending_credit(ledger, validator) <= u128::MAX
}

/// A call on a ledger.
pub enum FeeCall {
    Credit { address: Address, amount: u128 },
    Reserve { id: Hash256, payer: Address, compute_limit: u64, max_fee: u128 },
    Bind { settlement: Settlement, validator: Address },
    Release { id: Hash256 },
    Settle { settlement: Settlement, actual_compute: u64, validator: Address },
}

/// The ledger after a call, which changes nothing where it fails.
pub open spec fn called(ledger: LedgerModel, call: FeeCall) -> LedgerModel {
    match call {
        FeeCall::Credit { address, amount } => if credit_result(ledger, address, amount) is Ok {
            credited(ledger, address, amount)
        } else {
            ledger
        },
        FeeCall::Reserve { id, payer, compute_limit, max_fee } => if reserve_result(
            ledger,
            id,
            payer,
            compute_limit,
            max_fee,
        ) is Ok {
            reserved(ledger, id, payer, compute_limit, max_fee)
        } else {
            ledger
        },
        FeeCall::Bind { settlement, validator } => if bind_result(
            ledger,
            settlement,
            validator,
        ) is Ok {
            bound(ledger, settlement, validator)
        } else {
            ledger
        },
        FeeCall::Release { id } => released(ledger, id),
        FeeCall::Settle { settlement, actual_compute, validator } => if settle_result(
            ledger,
            settlement,
            actual_compute,
            validator,
        ) is Ok {
            settled(ledger, settlement, actual_compute, validator)
        } else {
            ledger
        },
    }
}

/// The ledger after calls, one after another.
pub open spec fn after_calls(ledger: LedgerModel, calls: Seq<FeeCall>) -> LedgerModel
    decreases calls.len(),
{
    if calls.len() == 0 {
        ledger
    } else {
        called(after_calls(ledger, calls.drop_last()), calls.last())
    }
}

/// Whether a call credits an address on its own account.
pub open spec fn credits(call: FeeCall, validator: Address) -> bool {
    call matches FeeCall::Credit { address, .. } && address == validator
}

/// Whether a call may take a reservation away.
pub open spec fn consumes(call: FeeCall, transaction_id: Hash256) -> bool {
    match call {
        FeeCall::Release { id } => id == transaction_id,
        FeeCall::Settle { settlement, .. } => settlement.transaction_id == transaction_id,
        _ => false,
    }
}

/// Every call keeps a ledger sound: no payer has more locked than it owns, and
/// every reservation locks exactly its signed maximum.
pub proof fn law_calls_keep_the_ledger_sound(ledger: LedgerModel, call: FeeCall)
    requires
        sound_ledger(ledger),
    ensures
        sound_ledger(called(ledger, call)),
{
    let after = called(ledger, call);
    match call {
        FeeCall::Credit { address, amount } => {
            assert forall|other: Address| #[trigger]
                reserved_for(after, other) <= amount_at(after.balances, other) by {
                assert(reserved_for(ledger, other) <= amount_at(ledger.balances, other));
            }
        },
        FeeCall::Reserve { id, payer, compute_limit, max_fee } => {
            if reserve_result(ledger, id, payer, compute_limit, max_fee) is Ok
                && !ledger.reservations.contains_key(id) {
                assert forall|other: Address| #[trigger]
                    reserved_for(after, other) <= amount_at(after.balances, other) by {
                    assert(reserved_for(ledger, other) <= amount_at(ledger.balances, other));
                    lemma_sum_insert(
                        ledger.reservations,
                        locked_at(other),
                        id,
                        after.reservations[id],
                    );
                }
            }
        },
        FeeCall::Bind { settlement, validator } => {
            if bind_result(ledger, settlement, validator) is Ok {
                let key = settlement.transaction_id;
                assert(sound_reservation(key, ledger.reservations[key]));
                assert forall|other: Address| #[trigger]
                    reserved_for(after, other) <= amount_at(after.balances, other) by {
                    assert(reserved_for(ledger, other) <= amount_at(ledger.balances, other));
                    lemma_sum_replace(
                        ledger.reservations,
                        locked_at(other),
                        key,
                        after.reservations[key],
                    );
                }
            }
        },
        FeeCall::Release { id } => {
            lemma_released_sound(ledger, id);
        },
        FeeCall::Settle { settlement, actual_compute, validator } => {
            if settle_result(ledger, settlement, actual_compute, validator) is Ok {
                let key = settlement.transaction_id;
                assert(sound_reservation(key, ledger.reservations[key]));
                lemma_charge_within_maximum(settlement, actual_compute);
                assert forall|other: Address| #[trigger]
                    reserved_for(after, other) <= amount_at(after.balances, other) by {
                    assert(reserved_for(ledger, other) <= amount_at(ledger.balances, other));
                    lemma_sum_remove(ledger.reservations, locked_at(other), key);
                }
            }
        },
    }
}

/// What may still be credited to a validator keeps fitting its balance, whatever
/// is called, as long as nothing is credited to it on its own account.
pub proof fn law_credit_room_is_kept(ledger: LedgerModel, call: FeeCall, validator: Address)
    requires
        sound_ledger(ledger),
        credit_room(ledger, validator),
        !credits(call, validator),
    ensures
        credit_room(called(ledger, call), validator),
{
    let after = called(ledger, call);
    let weight = creditable_at(validator);
    match call {
        FeeCall::Credit { .. } => {},
        FeeCall::Reserve { id, payer, compute_limit, max_fee } => {
            if reserve_result(ledger, id, payer, compute_limit, max_fee) is Ok
                && !ledger.reservations.contains_key(id) {
                lemma_sum_insert(ledger.reservations, weight, id, after.reservations[id]);
            }
        },
        FeeCall::Bind { settlement, validator: other } => {
            if bind_result(ledger, settlement, other) is Ok {
                let key = settlement.transaction_id;
                assert(sound_reservation(key, ledger.reservations[key]));
                lemma_sum_replace(ledger.reservations, weight, key, after.reservations[key]);
            }
        },
        FeeCall::Release { id } => {
            if ledger.reservations.contains_key(id) {
                lemma_sum_remove(ledger.reservations, weight, id);
            } else {
                assert(ledger.reservations.remove(id) =~= ledger.reservations);
            }
        },
        FeeCall::Settle { settlement, actual_compute, validator: other } => {
            if settle_result(ledger, settlement, actual_compute, other) is Ok {
                let key = settlement.transaction_id;
                assert(sound_reservation(key, ledger.reservations[key]));
                lemma_charge_within_maximum(settlement, actual_compute);
                lemma_sum_remove(ledger.reservations, locked_at(settlement.payer), key);
                assert(reserved_for(ledger, settlement.payer) <= amount_at(
                    ledger.balances,
                    settlement.payer,
                ));
                lemma_sum_remove(ledger.reservations, weight, key);
            }
        },
    }
}

/// A bound reservation stays bound, with room for its credit, until it is released
/// or settled.
proof fn lemma_stays_bound(
    ledger: LedgerModel,
    settlement: Settlement,
    validator: Address,
    calls: Seq<FeeCall>,
)
    requires
        sound_ledger(ledger),
        ledger.reservations.contains_key(settlement.transaction_id),
        ledger.reservations[settlement.transaction_id].settlement is None,
        bind_result(ledger, settlement, validator) is Ok,
        forall|i: int|
            0 <= i < calls.len() ==> !credits(#[trigger] calls[i], validator) && !consumes(
                calls[i],
                settlement.transaction_id,
            ),
    ensures
        ({
            let later = after_calls(bound(ledger, settlement, validator), calls);
            let id = settlement.transaction_id;
            &&& sound_ledger(later)
            &&& later.reservations.contains_key(id)
            &&& later.reservations[id].settlement == Some(binding_of(settlement, validator))
            &&& settlement.payer != validator ==> credit_room(later, validator)
        }),
    decreases calls.len(),
{
    let id = settlement.transaction_id;
    let start = bound(ledger, settlement, validator);
    if calls.len() == 0 {
        law_calls_keep_the_ledger_sound(ledger, FeeCall::Bind { settlement, validator });
        lemma_sum_replace(
            ledger.reservations,
            creditable_at(validator),
            id,
            start.reservations[id],
        );
    } else {
        let earlier = after_calls(start, calls.drop_last());
        assert forall|i: int| 0 <= i < calls.drop_last().len() implies !credits(
            #[trigger] calls.drop_last()[i],
            validator,
        ) && !consumes(calls.drop_last()[i], id) by {
            assert(calls.drop_last()[i] == calls[i]);
        }
        lemma_stays_bound(ledger, settlement, validator, calls.drop_last());
        let call = calls.last();
        assert(call == calls[calls.len() - 1]);
        law_calls_keep_the_ledger_sound(earlier, call);
        if settlement.payer != validator {
            law_credit_room_is_kept(earlier, call, validator);
        }
    }
}

/// Once a reservation is bound, settling it succeeds for any compute within the
/// limit and for no other, whatever was called in between, as long as nothing was
/// credited to the validator on its own account and the reservation was neither
/// released nor settled: neither the payer's balance nor the validator's capacity
/// can fail it.
pub proof fn law_bound_settlement_succeeds(
    ledger: LedgerModel,
    settlement: Settlement,
    validator: Address,
    calls: Seq<FeeCall>,
    actual_compute: u64,
)
    requires
        sound_ledger(ledger),
        ledger.reservations.contains_key(settlement.transaction_id),
        ledger.reservations[settlement.transaction_id].settlement is None,
        bind_result(ledger, settlement, validator) is Ok,
        forall|i: int|
            0 <= i < calls.len() ==> !credits(#[trigger] calls[i], validator) && !consumes(
                calls[i],
                settlement.transaction_id,
            ),
    ensures
        ({
            let later = after_calls(bound(ledger, settlement, validator), calls);
            let result = settle_result(later, settlement, actual_compute, validator);
            &&& result is Ok <==> actual_compute <= settlement.compute_limit
            &&& result is Err ==> result == Err::<FeeReceipt, MempoolError>(
                MempoolError::ComputeLimitExceeded,
            )
        }),
{
    lemma_stays_bound(ledger, settlement, validator, calls);
    let later = after_calls(bound(ledger, settlement, validator), calls);
    let id = settlement.transaction_id;
    if actual_compute <= settlement.compute_limit {
        assert(sound_reservation(id, later.reservations[id]));
        lemma_charge_within_maximum(settlement, actual_compute);
        lemma_sum_remove(later.reservations, creditable_at(validator), id);
    }
}

} // verus!
