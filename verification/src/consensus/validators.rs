//! The stake table of one epoch, its leaders and its quorums.

use vstd::prelude::*;

use crate::bytes::copy_bytes;
use crate::consensus::errors::ConsensusError;
use crate::crypto::AggregateSignatureScheme;
use crate::ordered::{
    ascending, ascending_by, distinct_by, lemma_ascending_by_unique, lemma_map_multiset, sort_by_key,
    Keyed, OrderedMap, SortKey,
};
use crate::types::Hash256;

verus! {

pub const FAST_PERCENT: u128 = 80;

pub const FALLBACK_PERCENT: u128 = 60;

/// The protocol safety assumption is strictly less than 20% Byzantine stake.
pub const MAX_BYZANTINE_PERCENT_EXCLUSIVE: u8 = 20;

/// Liveness additionally permits up to 20% separate crash/offline stake.
pub const MAX_OFFLINE_PERCENT_INCLUSIVE: u8 = 20;

/// Validator identity, stake, and proof-of-possession protected BLS key.
#[derive(Debug, PartialEq, Eq)]
pub struct Validator {
    pub id: Hash256,
    pub stake: u64,
    pub public_key: Vec<u8>,
    pub proof_of_possession: Vec<u8>,
}

/// The value of a validator.
pub struct ValidatorModel {
    pub id: Hash256,
    pub stake: u64,
    pub public_key: Seq<u8>,
    pub proof_of_possession: Seq<u8>,
}

impl View for Validator {
    type V = ValidatorModel;

    open spec fn view(&self) -> ValidatorModel {
        ValidatorModel {
            id: self.id,
            stake: self.stake,
            public_key: self.public_key@,
            proof_of_possession: self.proof_of_possession@,
        }
    }
}

impl Clone for Validator {
    fn clone(&self) -> (copy: Self)
        ensures
            copy@ == self@,
    {
        Validator {
            id: self.id,
            stake: self.stake,
            public_key: copy_bytes(&self.public_key),
            proof_of_possession: copy_bytes(&self.proof_of_possession),
        }
    }
}

impl Keyed<Hash256> for Validator {
    open spec fn sort_key(&self) -> Hash256 {
        self.id
    }

    fn key(&self) -> (key: Hash256) {
        self.id
    }
}

/// The values of a list of validators.
pub open spec fn models(list: Seq<Validator>) -> Seq<ValidatorModel> {
    list.map_values(|validator: Validator| validator@)
}

/// The validator at `i` has the identity `id`.
pub open spec fn is_at(list: Seq<ValidatorModel>, id: Hash256, i: int) -> bool {
    0 <= i < list.len() && list[i].id == id
}

/// The validator with an identity.
pub open spec fn member(list: Seq<ValidatorModel>, id: Hash256) -> Option<ValidatorModel> {
    if exists|i: int| is_at(list, id, i) {
        Some(list[choose|i: int| is_at(list, id, i)])
    } else {
        None
    }
}

/// Identities ascend, so none occurs twice.
pub open spec fn ids_ascend(list: Seq<ValidatorModel>) -> bool {
    forall|i: int, j: int| #![trigger list[i], list[j]]
        0 <= i < j < list.len() ==> list[i].id.precedes(list[j].id)
}

/// The stake of all validators.
pub open spec fn total_of(list: Seq<ValidatorModel>) -> nat
    decreases list.len(),
{
    if list.len() == 0 {
        0
    } else {
        total_of(list.drop_last()) + list.last().stake as nat
    }
}

/// The stake of the validators whose identities are in `ids`.
pub open spec fn stake_of(list: Seq<ValidatorModel>, ids: Set<Hash256>) -> nat
    decreases list.len(),
{
    if list.len() == 0 {
        0
    } else {
        stake_of(list.drop_last(), ids) + if ids.contains(list.last().id) {
            list.last().stake as nat
        } else {
            0
        }
    }
}

/// A table that can authenticate quorums: at least four validators in
/// ascending order of identity, each with stake.
pub open spec fn valid_table(list: Seq<ValidatorModel>) -> bool {
    &&& list.len() >= 4
    &&& ids_ascend(list)
    &&& forall|i: int| 0 <= i < list.len() ==> (#[trigger] list[i]).stake > 0
    &&& total_of(list) < u128::MAX
}

/// Admits validators one after another: the total stake, or the first reason
/// to refuse one.
pub open spec fn admission<S: AggregateSignatureScheme>(
    list: Seq<ValidatorModel>,
    scheme: S,
) -> Result<nat, ConsensusError>
    decreases list.len(),
{
    if list.len() == 0 {
        Ok(0)
    } else {
        match admission(list.drop_last(), scheme) {
            Err(error) => Err(error),
            Ok(sum) => {
                let validator = list.last();
                if validator.stake == 0 || member(list.drop_last(), validator.id) is Some {
                    Err(ConsensusError::InvalidValidatorSet)
                } else {
                    match scheme.possession_verification(
                        validator.public_key,
                        validator.proof_of_possession,
                    ) {
                        Err(error) => Err(ConsensusError::Crypto(error)),
                        Ok(()) => if sum + validator.stake > u128::MAX {
                            Err(ConsensusError::StakeOverflow)
                        } else {
                            Ok(sum + validator.stake as nat)
                        },
                    }
                }
            },
        }
    }
}

/// `percent` of the total stake, rounded up; a product beyond the integer
/// range counts as the largest integer.
pub open spec fn threshold_of(total: nat, percent: nat) -> nat {
    let product = if total * percent > u128::MAX {
        u128::MAX as nat
    } else {
        total * percent
    };
    (product + 99) / 100
}

/// The position of the leader of a round.
pub open spec fn leader_position(height: u64, view: u64, count: nat) -> int {
    (height + view) % (count as int)
}

/// The leader of a round.
pub open spec fn leader_of(list: Seq<ValidatorModel>, height: u64, view: u64) -> ValidatorModel {
    list[leader_position(height, view, list.len())]
}

/// Whether stakes of Byzantine and of separately offline validators stay in the
/// fault model: below one fifth, and at most one fifth.
pub open spec fn fault_budget(total: nat, byzantine: nat, offline: nat) -> Result<
    (),
    ConsensusError,
> {
    if byzantine * 5 >= total {
        Err(ConsensusError::ByzantineBudgetExceeded)
    } else if offline * 5 > total || byzantine + offline > total {
        Err(ConsensusError::OfflineBudgetExceeded)
    } else {
        Ok(())
    }
}

/// In a table without repeated identities, a position determines its member.
pub proof fn lemma_member_at(list: Seq<ValidatorModel>, i: int)
    requires
        ids_ascend(list),
        0 <= i < list.len(),
    ensures
        member(list, list[i].id) == Some(list[i]),
{
    let id = list[i].id;
    assert(is_at(list, id, i));
    let j = choose|j: int| is_at(list, id, j);
    Hash256::precedes_irreflexive(id);
    if i < j {
        assert(list[i].id.precedes(list[j].id));
    } else if j < i {
        assert(list[j].id.precedes(list[i].id));
    }
}

/// The stake of a single validator never exceeds the total.
pub proof fn lemma_total_bound(list: Seq<ValidatorModel>)
    ensures
        total_of(list) <= list.len() * u64::MAX,
    decreases list.len(),
{
    if list.len() > 0 {
        lemma_total_bound(list.drop_last());
        assert(total_of(list) <= (list.len() - 1) * u64::MAX + u64::MAX);
        assert((list.len() - 1) * u64::MAX + u64::MAX == list.len() * u64::MAX) by (nonlinear_arith);
    }
}

/// Immutable stake table used for one epoch.
#[derive(Debug)]
pub struct ValidatorSet {
    validators: Vec<Validator>,
    positions: OrderedMap<Hash256, usize>,
    total_stake: u128,
}

impl View for ValidatorSet {
    type V = Seq<ValidatorModel>;

    closed spec fn view(&self) -> Seq<ValidatorModel> {
        models(self.validators@)
    }
}

/// What forming a set from validators gives: they are admitted in ascending order
/// of identity.
pub open spec fn formed_from<S: AggregateSignatureScheme>(
    validators: Seq<ValidatorModel>,
    scheme: S,
    result: Result<ValidatorSet, ConsensusError>,
) -> bool {
    &&& validators.len() < 4 ==> (result matches Err(error) && error
        == ConsensusError::TooFewValidators)
    &&& validators.len() >= 4 ==> exists|order: Seq<ValidatorModel>| #[trigger]
        by_identity(order, validators) && match result {
            Ok(set) => set@ == order && valid_table(set@) && admission(order, scheme) == Ok::<
                nat,
                ConsensusError,
            >(total_of(set@)),
            Err(error) => admission(order, scheme) == Err::<nat, ConsensusError>(error),
        }
}

/// The identity of a validator.
pub open spec fn identity() -> spec_fn(ValidatorModel) -> Hash256 {
    |validator: ValidatorModel| validator.id
}

/// `order` lists the validators in ascending order of identity.
pub open spec fn by_identity(order: Seq<ValidatorModel>, validators: Seq<ValidatorModel>) -> bool {
    &&& order.to_multiset() == validators.to_multiset()
    &&& ascending_by(order, identity())
}

/// Validators that form a set form the same set in whatever order they are listed.
pub proof fn law_listing_order_does_not_matter<S: AggregateSignatureScheme>(
    validators: Seq<ValidatorModel>,
    reordered: Seq<ValidatorModel>,
    scheme: S,
    set: ValidatorSet,
    result: Result<ValidatorSet, ConsensusError>,
)
    requires
        validators.to_multiset() == reordered.to_multiset(),
        formed_from(validators, scheme, Ok(set)),
        formed_from(reordered, scheme, result),
    ensures
        result matches Ok(again) && again@ == set@,
{
    validators.to_multiset_ensures();
    reordered.to_multiset_ensures();
    let order = choose|order: Seq<ValidatorModel>| #[trigger]
        by_identity(order, validators) && set@ == order && valid_table(set@) && admission(
            order,
            scheme,
        ) == Ok::<nat, ConsensusError>(total_of(set@));
    let again = choose|again: Seq<ValidatorModel>| #[trigger]
        by_identity(again, reordered) && match result {
            Ok(other) => other@ == again && valid_table(other@) && admission(again, scheme) == Ok::<
                nat,
                ConsensusError,
            >(total_of(other@)),
            Err(error) => admission(again, scheme) == Err::<nat, ConsensusError>(error),
        };
    assert(distinct_by(order, identity())) by {
        assert forall|i: int, j: int| #![trigger order[i], order[j]]
            0 <= i < j < order.len() implies identity()(order[i]) != identity()(order[j]) by {
            assert(order[i].id.precedes(order[j].id));
            Hash256::precedes_irreflexive(order[i].id);
        }
    }
    lemma_ascending_by_unique(order, again, identity());
}

impl ValidatorSet {
    #[verifier::type_invariant]
    spec fn consistent(self) -> bool {
        &&& valid_table(self@)
        &&& self.total_stake == total_of(self@)
        &&& indexes(self.positions@, self@)
    }

    /// Validates unique validators, nonzero stake, and every proof of possession.
    ///
    /// # Errors
    ///
    /// Returns an error when the set cannot safely authenticate aggregate votes.
    pub fn new<S: AggregateSignatureScheme>(validators: Vec<Validator>, scheme: &S) -> (result:
        Result<Self, ConsensusError>)
        ensures
            formed_from(models(validators@), *scheme, result),
    {
        if validators.len() < 4 {
            return Err(ConsensusError::TooFewValidators);
        }
        let sorted = sort_by_key(validators);
        proof {
            sorted@.to_multiset_ensures();
            validators@.to_multiset_ensures();
        }
        let ghost list = models(sorted@);
        proof {
            let value = |validator: Validator| validator@;
            lemma_map_multiset(sorted@, validators@, value);
            assert(list =~= sorted@.map_values(value));
            assert(models(validators@) =~= validators@.map_values(value));
            assert forall|i: int, j: int| #![trigger list[i], list[j]]
                0 <= i < j < list.len() implies !identity()(list[j]).precedes(
                identity()(list[i]),
            ) by {
                assert(!sorted@[j].sort_key().precedes(sorted@[i].sort_key()));
            }
            assert(by_identity(list, models(validators@)));
        }
        let mut positions: OrderedMap<Hash256, usize> = OrderedMap::new();
        let mut total_stake: u128 = 0;
        let mut position: usize = 0;
        assert(list.take(0) =~= Seq::<ValidatorModel>::empty());
        while position < sorted.len()
            invariant
                position <= sorted@.len(),
                sorted@.len() >= 4,
                validators@.len() >= 4,
                by_identity(list, models(validators@)),
                ascending::<Hash256, Validator>(sorted@),
                list == models(sorted@),
                admission(list.take(position as int), *scheme) == Ok::<nat, ConsensusError>(
                    total_stake as nat,
                ),
                total_stake == total_of(list.take(position as int)),
                ids_ascend(list.take(position as int)),
                indexes(positions@, list.take(position as int)),
                forall|i: int| 0 <= i < position ==> (#[trigger] list[i]).stake > 0,
            decreases sorted@.len() - position,
        {
            let ghost seen = list.take(position as int);
            let ghost next = list.take(position + 1);
            proof {
                assert(next.drop_last() =~= seen);
                assert(next.last() == list[position as int]);
                assert(list[position as int] == sorted@[position as int]@);
            }
            let validator = &sorted[position];
            let ghost before = positions@;
            let repeated = positions.insert(validator.id, position).is_some();
            proof {
                assert(repeated == (member(seen, validator.id) is Some)) by {
                    if repeated {
                        assert(is_at(seen, validator.id, before[validator.id] as int));
                    }
                    if member(seen, validator.id) is Some {
                        let i = choose|i: int| is_at(seen, validator.id, i);
                        assert(seen[i].id == validator.id);
                    }
                }
            }
            if validator.stake == 0 || repeated {
                proof {
                    lemma_admission_fails(list, position + 1, *scheme);
                }
                return Err(ConsensusError::InvalidValidatorSet);
            }
            match scheme.verify_proof_of_possession(
                &validator.public_key,
                &validator.proof_of_possession,
            ) {
                Ok(()) => {},
                Err(error) => {
                    proof {
                        lemma_admission_fails(list, position + 1, *scheme);
                    }
                    return Err(ConsensusError::Crypto(error));
                },
            }
            match total_stake.checked_add(validator.stake as u128) {
                Some(sum) => {
                    total_stake = sum;
                },
                None => {
                    proof {
                        lemma_admission_fails(list, position + 1, *scheme);
                    }
                    return Err(ConsensusError::StakeOverflow);
                },
            }
            proof {
                assert forall|i: int, j: int| #![trigger next[i], next[j]]
                    0 <= i < j < next.len() implies next[i].id.precedes(next[j].id) by {
                    if j < position {
                        assert(seen[i].id.precedes(seen[j].id));
                    } else {
                        assert(!sorted@[j].sort_key().precedes(sorted@[i].sort_key()));
                        Hash256::precedes_total(next[i].id, next[j].id);
                        if next[i].id == next[j].id {
                            assert(is_at(seen, validator.id, i));
                        }
                    }
                }
                assert forall|i: int| 0 <= i < next.len() implies positions@.contains_key(
                    (#[trigger] next[i]).id,
                ) && positions@[next[i].id] == i by {
                    if i < position {
                        assert(seen[i] == next[i]);
                        if next[i].id == validator.id {
                            assert(is_at(seen, validator.id, i));
                        }
                    }
                }
                assert forall|id: Hash256| #[trigger] positions@.contains_key(id) implies
                    positions@[id] < next.len() && next[positions@[id] as int].id == id by {
                    if id != validator.id {
                        assert(seen[positions@[id] as int].id == id);
                    }
                }
            }
            position += 1;
        }
        proof {
            assert(list.take(position as int) =~= list);
            lemma_total_bound(list);
            assert(list.len() * u64::MAX <= 0xffff_ffff_ffff_ffff * 0xffff_ffff_ffff_ffff)
                by (nonlinear_arith)
                requires
                    list.len() <= 0xffff_ffff_ffff_ffff,
            ;
        }
        Ok(ValidatorSet { validators: sorted, positions, total_stake })
    }

    /// The stake of all validators.
    pub fn total_stake(&self) -> (total: u128)
        ensures
            total == total_of(self@),
            valid_table(self@),
    {
        proof {
            use_type_invariant(self);
        }
        self.total_stake
    }

    /// The validators in ascending order of identity.
    pub fn validators(&self) -> (list: &[Validator])
        ensures
            models(list@) == self@,
            valid_table(self@),
    {
        proof {
            use_type_invariant(self);
        }
        &self.validators
    }

    /// The validator with an identity.
    pub fn validator(&self, id: Hash256) -> (found: Option<&Validator>)
        ensures
            match found {
                Some(validator) => member(self@, id) == Some(validator@),
                None => member(self@, id) is None,
            },
    {
        proof {
            use_type_invariant(self);
        }
        match self.positions.get(&id) {
            Some(position) => {
                proof {
                    lemma_member_at(self@, *position as int);
                }
                Some(&self.validators[*position])
            },
            None => {
                proof {
                    if member(self@, id) is Some {
                        let i = choose|i: int| is_at(self@, id, i);
                        assert(self@[i].id == id);
                    }
                }
                None
            },
        }
    }

    /// Deterministic stake-table order rotation. A view change always changes leader.
    pub fn leader(&self, height: u64, view: u64) -> (leader: &Validator)
        ensures
            leader@ == leader_of(self@, height, view),
            member(self@, leader.id) == Some(leader@),
            valid_table(self@),
    {
        proof {
            use_type_invariant(self);
        }
        let count: u128 = self.validators.len() as u128;
        let position: u128 = (height as u128 + view as u128) % count;
        proof {
            assert(position == leader_position(height, view, self@.len()));
            lemma_member_at(self@, position as int);
        }
        &self.validators[position as usize]
    }

    /// The stake of a fast certificate.
    pub fn fast_threshold(&self) -> (required: u128)
        ensures
            required == threshold_of(total_of(self@), 80),
    {
        proof {
            use_type_invariant(self);
        }
        threshold(self.total_stake, FAST_PERCENT)
    }

    /// The stake of a prepare, commit or timeout certificate.
    pub fn fallback_threshold(&self) -> (required: u128)
        ensures
            required == threshold_of(total_of(self@), 60),
    {
        proof {
            use_type_invariant(self);
        }
        threshold(self.total_stake, FALLBACK_PERCENT)
    }

    /// Checks whether an injected-fault scenario is within the 20+20 model.
    ///
    /// Byzantine stake must be strictly below 20%. Offline stake is separate,
    /// disjoint, and may be exactly 20%.
    ///
    /// # Errors
    ///
    /// Rejects scenarios outside the stated proof assumptions.
    pub fn validate_fault_budget(&self, byzantine_stake: u128, offline_stake: u128) -> (result:
        Result<(), ConsensusError>)
        ensures
            result == fault_budget(
                total_of(self@),
                byzantine_stake as nat,
                offline_stake as nat,
            ),
    {
        proof {
            use_type_invariant(self);
        }
        if saturating_product(byzantine_stake, 5) >= self.total_stake {
            return Err(ConsensusError::ByzantineBudgetExceeded);
        }
        if saturating_product(offline_stake, 5) > self.total_stake
            || byzantine_stake.saturating_add(offline_stake) > self.total_stake {
            return Err(ConsensusError::OfflineBudgetExceeded);
        }
        Ok(())
    }
}

impl Clone for ValidatorSet {
    fn clone(&self) -> (copy: Self)
        ensures
            copy@ == self@,
    {
        proof {
            use_type_invariant(self);
        }
        let mut validators: Vec<Validator> = Vec::new();
        let mut index: usize = 0;
        while index < self.validators.len()
            invariant
                index <= self.validators@.len(),
                models(validators@) == models(self.validators@).take(index as int),
            decreases self.validators@.len() - index,
        {
            let ghost before = models(validators@);
            let copy = self.validators[index].clone();
            assert(models(self.validators@)[index as int] == copy@);
            validators.push(copy);
            assert(models(validators@) =~= before.push(copy@));
            index += 1;
            assert(models(validators@) =~= models(self.validators@).take(index as int));
        }
        assert(models(validators@) =~= models(self.validators@));
        ValidatorSet {
            validators,
            positions: self.positions.copy(),
            total_stake: self.total_stake,
        }
    }
}

/// `positions` gives the place of every identity of the list, and of no other.
pub open spec fn indexes(positions: Map<Hash256, usize>, list: Seq<ValidatorModel>) -> bool {
    &&& forall|i: int|
        0 <= i < list.len() ==> positions.contains_key((#[trigger] list[i]).id)
            && positions[list[i].id] == i
    &&& forall|id: Hash256| #[trigger]
        positions.contains_key(id) ==> positions[id] < list.len() && list[positions[id] as int].id
            == id
}

proof fn lemma_admission_fails<S: AggregateSignatureScheme>(
    list: Seq<ValidatorModel>,
    count: int,
    scheme: S,
)
    requires
        0 < count <= list.len(),
        admission(list.take(count), scheme) is Err,
    ensures
        admission(list, scheme) == admission(list.take(count), scheme),
    decreases list.len(),
{
    if count == list.len() {
        assert(list.take(count) =~= list);
    } else {
        assert(list.drop_last().take(count) =~= list.take(count));
        lemma_admission_fails(list.drop_last(), count, scheme);
    }
}

/// The product, or the largest integer where it does not fit.
pub fn saturating_product(left: u128, right: u128) -> (product: u128)
    ensures
        product == (if left * right > u128::MAX {
            u128::MAX as int
        } else {
            left * right
        }),
{
    match left.checked_mul(right) {
        Some(product) => product,
        None => u128::MAX,
    }
}

/// The stake that `percent` of the total amounts to, rounded up.
pub fn threshold(total_stake: u128, percent: u128) -> (required: u128)
    ensures
        required == threshold_of(total_stake as nat, percent as nat),
{
    let product: u128 = saturating_product(total_stake, percent);
    if product % 100 == 0 {
        product / 100
    } else {
        product / 100 + 1
    }
}

/// A view change always changes the leader.
pub proof fn law_view_change_rotates_leader(list: Seq<ValidatorModel>, height: u64, view: u64)
    requires
        valid_table(list),
        view < u64::MAX,
    ensures
        leader_of(list, height, (view + 1) as u64).id != leader_of(list, height, view).id,
{
    let count = list.len() as int;
    let turn = height + view;
    let i = leader_position(height, view, list.len());
    let j = leader_position(height, (view + 1) as u64, list.len());
    assert(i == turn % count && j == (turn + 1) % count);
    assert(i != j && 0 <= i < count && 0 <= j < count) by (nonlinear_arith)
        requires
            i == turn % count,
            j == (turn + 1) % count,
            count >= 4,
            turn >= 0,
    ;
    Hash256::precedes_irreflexive(list[i].id);
    if i < j {
        assert(list[i].id.precedes(list[j].id));
    } else {
        assert(list[j].id.precedes(list[i].id));
    }
}

/// The stakes of two sets add up to the stakes of their intersection and union.
pub proof fn lemma_stake_inclusion(list: Seq<ValidatorModel>, left: Set<Hash256>, right: Set<Hash256>)
    ensures
        stake_of(list, left) + stake_of(list, right) == stake_of(list, left.intersect(right))
            + stake_of(list, left.union(right)),
    decreases list.len(),
{
    if list.len() > 0 {
        lemma_stake_inclusion(list.drop_last(), left, right);
    }
}

/// No set of validators has more than the total stake.
pub proof fn lemma_stake_at_most_total(list: Seq<ValidatorModel>, ids: Set<Hash256>)
    ensures
        stake_of(list, ids) <= total_of(list),
    decreases list.len(),
{
    if list.len() > 0 {
        lemma_stake_at_most_total(list.drop_last(), ids);
    }
}

/// A set with more stake than another holds a validator that the other lacks.
pub proof fn lemma_heavier_set_has_another(
    list: Seq<ValidatorModel>,
    heavy: Set<Hash256>,
    light: Set<Hash256>,
) -> (i: int)
    requires
        stake_of(list, heavy) > stake_of(list, light),
    ensures
        0 <= i < list.len(),
        heavy.contains(list[i].id),
        !light.contains(list[i].id),
    decreases list.len(),
{
    let last = list.len() - 1;
    if heavy.contains(list[last].id) && !light.contains(list[last].id) {
        last
    } else {
        let i = lemma_heavier_set_has_another(list.drop_last(), heavy, light);
        assert(list.drop_last()[i] == list[i]);
        i
    }
}

/// Two quorums of at least 60% share a validator that is not Byzantine, where
/// less than 20% of the stake is. So no two conflicting certificates of one
/// round can both gather 60% while honest validators vote once.
pub proof fn law_fallback_quorums_share_an_honest_validator(
    list: Seq<ValidatorModel>,
    left: Set<Hash256>,
    right: Set<Hash256>,
    byzantine: Set<Hash256>,
)
    requires
        valid_table(list),
        total_of(list) * 60 <= u128::MAX,
        stake_of(list, left) >= threshold_of(total_of(list), 60),
        stake_of(list, right) >= threshold_of(total_of(list), 60),
        fault_budget(total_of(list), stake_of(list, byzantine), 0) is Ok,
    ensures
        exists|i: int|
            0 <= i < list.len() && left.contains((#[trigger] list[i]).id) && right.contains(
                list[i].id,
            ) && !byzantine.contains(list[i].id),
{
    let both = left.intersect(right);
    lemma_stake_inclusion(list, left, right);
    lemma_stake_at_most_total(list, left.union(right));
    let i = lemma_heavier_set_has_another(list, both, byzantine);
    assert(left.contains(list[i].id));
}

/// A fast quorum of at least 80% and a timeout quorum of at least 60% share a
/// validator that is not Byzantine, where less than 20% of the stake is. Since
/// honest validators never cast both an order and a timeout vote in one view,
/// a view with a fast certificate cannot be abandoned.
pub proof fn law_fast_and_timeout_quorums_share_an_honest_validator(
    list: Seq<ValidatorModel>,
    fast: Set<Hash256>,
    timeout: Set<Hash256>,
    byzantine: Set<Hash256>,
)
    requires
        valid_table(list),
        total_of(list) * 80 <= u128::MAX,
        stake_of(list, fast) >= threshold_of(total_of(list), 80),
        stake_of(list, timeout) >= threshold_of(total_of(list), 60),
        fault_budget(total_of(list), stake_of(list, byzantine), 0) is Ok,
    ensures
        exists|i: int|
            0 <= i < list.len() && fast.contains((#[trigger] list[i]).id) && timeout.contains(
                list[i].id,
            ) && !byzantine.contains(list[i].id),
{
    let both = fast.intersect(timeout);
    lemma_stake_inclusion(list, fast, timeout);
    lemma_stake_at_most_total(list, fast.union(timeout));
    let i = lemma_heavier_set_has_another(list, both, byzantine);
    assert(fast.contains(list[i].id));
}

/// With Byzantine and offline stake inside the fault budget, the remaining
/// validators alone reach the 60% quorums that liveness needs.
pub proof fn law_correct_stake_reaches_fallback_quorum(
    total: nat,
    byzantine: nat,
    offline: nat,
)
    requires
        total * 60 <= u128::MAX,
        fault_budget(total, byzantine, offline) is Ok,
    ensures
        total - byzantine - offline >= threshold_of(total, 60),
{
}

} // verus!
