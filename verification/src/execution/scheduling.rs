//! Which transactions may run side by side.

use vstd::prelude::*;

use crate::execution::transactions::{
    resulting_owner, sender_of, AccessMode, DeclaredObjectRef, ExecutableTransaction,
    ExecutionError,
};
use crate::ordered::{sorted_keys, OrderedMap, OrderedSet};
use crate::types::{same_owner, Address, ObjectId, Owner};

verus! {

/// The objects that an execution has read and written.
#[derive(Debug, PartialEq, Eq)]
pub struct StateAccesses {
    pub reads: OrderedSet<ObjectId>,
    pub writes: OrderedSet<ObjectId>,
}

/// The value of accesses.
#[verifier::ext_equal]
pub struct AccessModel {
    pub reads: Set<ObjectId>,
    pub writes: Set<ObjectId>,
}

impl View for StateAccesses {
    type V = AccessModel;

    open spec fn view(&self) -> AccessModel {
        AccessModel { reads: self.reads@, writes: self.writes@ }
    }
}

/// Whether an attempt observed or wrote an object changed by an earlier
/// canonical commit.
pub open spec fn conflicts(accesses: AccessModel, committed_writes: Set<ObjectId>) -> bool {
    exists|id: ObjectId| #[trigger]
        committed_writes.contains(id) && (accesses.reads.contains(id) || accesses.writes.contains(id))
}

/// Whether two sets share a member.
fn intersects(left: &OrderedSet<ObjectId>, right: &OrderedSet<ObjectId>) -> (shared: bool)
    ensures
        shared == exists|id: ObjectId| #[trigger] right@.contains(id) && left@.contains(id),
{
    let keys = left.keys();
    let mut index: usize = 0;
    while index < keys.len()
        invariant
            index <= keys@.len(),
            forall|key: ObjectId| keys@.contains(key) <==> left@.contains(key),
            forall|i: int| 0 <= i < index ==> !right@.contains(#[trigger] keys@[i]),
        decreases keys@.len() - index,
    {
        if right.contains(&keys[index]) {
            assert(keys@.contains(keys@[index as int]));
            return true;
        }
        index += 1;
    }
    proof {
        assert forall|id: ObjectId| right@.contains(id) implies !left@.contains(id) by {
            if left@.contains(id) {
                assert(keys@.contains(id));
                let i = choose|i: int| 0 <= i < keys@.len() && keys@[i] == id;
                assert(!right@.contains(keys@[i]));
            }
        }
    }
    false
}

/// Returns whether a speculative attempt observed or wrote an object changed by
/// an earlier canonical commit.
pub fn conflicts_with_committed_writes(
    accesses: &StateAccesses,
    committed_writes: &OrderedSet<ObjectId>,
) -> (conflict: bool)
    ensures
        conflict == conflicts(accesses@, committed_writes@),
{
    intersects(&accesses.reads, committed_writes) || intersects(&accesses.writes, committed_writes)
}

/// Whether references hold an object, for any access.
pub open spec fn refers_to(references: Seq<DeclaredObjectRef>, id: ObjectId) -> bool {
    exists|i: int| 0 <= i < references.len() && (#[trigger] references[i]).id == id
}

/// Whether references hold an object for writing.
pub open spec fn refers_to_write(references: Seq<DeclaredObjectRef>, id: ObjectId) -> bool {
    exists|i: int|
        0 <= i < references.len() && (#[trigger] references[i]).id == id && references[i].access
            == AccessMode::Write
}

/// The accesses that a transaction did not declare.
pub open spec fn undeclared(references: Seq<DeclaredObjectRef>, accesses: AccessModel) -> Set<
    ObjectId,
> {
    accesses.reads.filter(|id: ObjectId| !refers_to(references, id)).union(
        accesses.writes.filter(|id: ObjectId| !refers_to_write(references, id)),
    )
}

fn is_referred_to(references: &[DeclaredObjectRef], id: ObjectId) -> (found: bool)
    ensures
        found == refers_to(references@, id),
{
    let mut index: usize = 0;
    while index < references.len()
        invariant
            index <= references@.len(),
            forall|i: int| 0 <= i < index ==> (#[trigger] references@[i]).id != id,
        decreases references@.len() - index,
    {
        if references[index].id == id {
            return true;
        }
        index += 1;
    }
    false
}

fn is_referred_to_for_writing(references: &[DeclaredObjectRef], id: ObjectId) -> (found: bool)
    ensures
        found == refers_to_write(references@, id),
{
    let mut index: usize = 0;
    while index < references.len()
        invariant
            index <= references@.len(),
            forall|i: int|
                0 <= i < index ==> (#[trigger] references@[i]).id != id || references@[i].access
                    != AccessMode::Write,
        decreases references@.len() - index,
    {
        if references[index].id == id && references[index].access == AccessMode::Write {
            return true;
        }
        index += 1;
    }
    false
}

/// Checks that a transaction declared every object that its execution read, and
/// declared every object that it wrote for writing.
///
/// # Errors
///
/// Returns the undeclared accesses.
pub fn ensure_declared(
    index: usize,
    transaction: &ExecutableTransaction,
    accesses: &StateAccesses,
) -> (result: Result<(), ExecutionError>)
    ensures
        match result {
            Ok(()) => undeclared(transaction.object_references@, accesses@) =~= Set::empty(),
            Err(ExecutionError::UndeclaredAccess { index: at, objects }) => at == index
                && objects@ == undeclared(transaction.object_references@, accesses@) && objects@
                != Set::<ObjectId>::empty(),
            Err(_) => false,
        },
{
    let references: &[DeclaredObjectRef] = transaction.object_references.as_slice();
    let mut found: OrderedSet<ObjectId> = OrderedSet::new();
    let reads = accesses.reads.keys();
    let ghost total_reads = accesses.reads@.filter(|id: ObjectId| !refers_to(references@, id));
    let mut at: usize = 0;
    while at < reads.len()
        invariant
            at <= reads@.len(),
            total_reads == accesses.reads@.filter(|id: ObjectId| !refers_to(references@, id)),
            forall|key: ObjectId| reads@.contains(key) <==> accesses.reads@.contains(key),
            forall|id: ObjectId| #[trigger]
                found@.contains(id) <==> reads@.take(at as int).contains(id) && !refers_to(
                    references@,
                    id,
                ),
        decreases reads@.len() - at,
    {
        let ghost before = found@;
        let id = reads[at];
        if !is_referred_to(references, id) {
            found.insert(id);
        }
        proof {
            let next = reads@.take(at + 1);
            assert(next =~= reads@.take(at as int).push(id));
            assert forall|other: ObjectId| #[trigger]
                found@.contains(other) <==> next.contains(other) && !refers_to(
                references@,
                other,
            ) by {
                lemma_pushed(reads@.take(at as int), id, other);
                assert(before.contains(other) <==> reads@.take(at as int).contains(other)
                    && !refers_to(references@, other));
            }
        }
        at += 1;
    }
    assert(reads@.take(at as int) =~= reads@);
    let writes = accesses.writes.keys();
    let ghost after_reads = found@;
    assert(after_reads =~= total_reads);
    let mut index_of_write: usize = 0;
    while index_of_write < writes.len()
        invariant
            index_of_write <= writes@.len(),
            after_reads == total_reads,
            forall|key: ObjectId| writes@.contains(key) <==> accesses.writes@.contains(key),
            forall|id: ObjectId| #[trigger]
                found@.contains(id) <==> total_reads.contains(id) || (writes@.take(
                    index_of_write as int,
                ).contains(id) && !refers_to_write(references@, id)),
        decreases writes@.len() - index_of_write,
    {
        let ghost before = found@;
        let id = writes[index_of_write];
        if !is_referred_to_for_writing(references, id) {
            found.insert(id);
        }
        proof {
            let shorter = writes@.take(index_of_write as int);
            let next = writes@.take(index_of_write + 1);
            assert(next =~= shorter.push(id));
            assert forall|other: ObjectId| #[trigger]
                found@.contains(other) <==> total_reads.contains(other) || (next.contains(other)
                && !refers_to_write(references@, other)) by {
                lemma_pushed(shorter, id, other);
                assert(before.contains(other) <==> total_reads.contains(other) || (
                shorter.contains(other) && !refers_to_write(references@, other)));
            }
        }
        index_of_write += 1;
    }
    assert(writes@.take(index_of_write as int) =~= writes@);
    assert(found@ =~= undeclared(references@, accesses@));
    if found.is_empty() {
        Ok(())
    } else {
        Err(ExecutionError::UndeclaredAccess { index, objects: found })
    }
}

proof fn lemma_pushed(list: Seq<ObjectId>, last: ObjectId, id: ObjectId)
    ensures
        list.push(last).contains(id) <==> list.contains(id) || id == last,
{
    let longer = list.push(last);
    if list.contains(id) {
        let i = choose|i: int| 0 <= i < list.len() && list[i] == id;
        assert(longer[i] == id);
    }
    if id == last {
        assert(longer[list.len() as int] == id);
    }
}

/// Whether every reference names one owner, and agrees with the stored owner of
/// its object where there is one.
pub open spec fn all_owned_by(
    owners: Map<ObjectId, Owner>,
    references: Seq<DeclaredObjectRef>,
    owner: Address,
) -> bool {
    forall|i: int|
        0 <= i < references.len() ==> (#[trigger] references[i]).owner == Owner::Single(owner) && (
        owners.contains_key(references[i].id) ==> owners[references[i].id] == references[i].owner)
}

/// The owner on whose lane a transaction may run by itself: it sends the
/// transaction, owns everything that it refers to and keeps it.
pub open spec fn lane_owner(
    owners: Map<ObjectId, Owner>,
    transaction: ExecutableTransaction,
) -> Option<Address> {
    let references = transaction.object_references@;
    if references.len() == 0 {
        None
    } else {
        match references[0].owner {
            Owner::Shared => None,
            Owner::Single(owner) => if owner == sender_of(transaction.operation) && all_owned_by(
                owners,
                references,
                owner,
            ) && (resulting_owner(transaction.operation) matches Some(result) ==> result
                == Owner::Single(owner)) {
                Some(owner)
            } else {
                None
            },
        }
    }
}

/// Whether an operation hands its object to someone else than `owner`.
fn operation_changes_owner(transaction: &ExecutableTransaction, owner: Address) -> (changes: bool)
    ensures
        changes == !(resulting_owner(transaction.operation) matches Some(result) ==> result
            == Owner::Single(owner)),
{
    match transaction.operation.resulting_owner() {
        Some(result) => !same_owner(&result, &Owner::Single(owner)),
        None => false,
    }
}

/// The owner on whose lane a transaction may run, given the owners of the stored
/// objects.
pub fn fast_path_owner(
    owners: &OrderedMap<ObjectId, Owner>,
    transaction: &ExecutableTransaction,
) -> (lane: Option<Address>)
    ensures
        lane == lane_owner(owners@, *transaction),
{
    let references: &[DeclaredObjectRef] = transaction.object_references.as_slice();
    if references.len() == 0 {
        return None;
    }
    let owner = match references[0].owner {
        Owner::Single(owner) => owner,
        Owner::Shared => {
            return None;
        },
    };
    if owner != transaction.operation.sender() || operation_changes_owner(transaction, owner) {
        return None;
    }
    let expected = Owner::Single(owner);
    let mut index: usize = 0;
    while index < references.len()
        invariant
            index <= references@.len(),
            references@ == transaction.object_references@,
            references@.len() > 0,
            references@[0].owner == Owner::Single(owner),
            expected == Owner::Single(owner),
            forall|i: int|
                0 <= i < index ==> (#[trigger] references@[i]).owner == Owner::Single(owner) && (
                owners@.contains_key(references@[i].id) ==> owners@[references@[i].id]
                    == references@[i].owner),
        decreases references@.len() - index,
    {
        let reference = references[index];
        if !same_owner(&reference.owner, &expected) {
            assert(!all_owned_by(owners@, references@, owner));
            return None;
        }
        if let Some(stored) = owners.get(&reference.id) {
            if !same_owner(stored, &reference.owner) {
                assert(!all_owned_by(owners@, references@, owner));
                return None;
            }
        }
        index += 1;
    }
    Some(owner)
}

/// The lane owners of transactions, each taken by itself.
pub open spec fn candidates(
    owners: Map<ObjectId, Owner>,
    transactions: Seq<ExecutableTransaction>,
) -> Seq<Option<Address>> {
    transactions.map_values(|transaction: ExecutableTransaction| lane_owner(owners, transaction))
}

/// Whether a transaction refers to an object.
pub open spec fn uses(transactions: Seq<ExecutableTransaction>, i: int, id: ObjectId) -> bool {
    refers_to(transactions[i].object_references@, id)
}

/// Whether an object may not be used on a lane: of the first `count` transactions
/// one without a lane refers to it, or two of different lanes do.
pub open spec fn is_contended(
    transactions: Seq<ExecutableTransaction>,
    lanes: Seq<Option<Address>>,
    count: int,
    id: ObjectId,
) -> bool {
    ||| exists|i: int| 0 <= i < count && lanes[i] is None && #[trigger] uses(transactions, i, id)
    ||| exists|i: int, j: int|
        0 <= i < count && 0 <= j < count && lanes[i] != lanes[j] && #[trigger] uses(
            transactions,
            i,
            id,
        ) && #[trigger] uses(transactions, j, id)
}

/// Whether a transaction refers to an object that may not be used on a lane.
pub open spec fn is_held_back(
    transactions: Seq<ExecutableTransaction>,
    lanes: Seq<Option<Address>>,
    i: int,
) -> bool {
    exists|k: int|
        0 <= k < transactions[i].object_references@.len() && is_contended(
            transactions,
            lanes,
            transactions.len() as int,
            (#[trigger] transactions[i].object_references@[k]).id,
        )
}

/// The lanes without the transactions that are held back.
pub open spec fn demoted(
    transactions: Seq<ExecutableTransaction>,
    lanes: Seq<Option<Address>>,
) -> Seq<Option<Address>> {
    Seq::new(
        lanes.len(),
        |i: int|
            if is_held_back(transactions, lanes, i) {
                None
            } else {
                lanes[i]
            },
    )
}

/// The lanes after some rounds of holding transactions back.
pub open spec fn lanes_after(
    transactions: Seq<ExecutableTransaction>,
    lanes: Seq<Option<Address>>,
    rounds: nat,
) -> Seq<Option<Address>>
    decreases rounds,
{
    if rounds == 0 {
        lanes
    } else {
        demoted(transactions, lanes_after(transactions, lanes, (rounds - 1) as nat))
    }
}

/// The lane of each transaction, `None` where it has to be validated at commit.
/// Holding one transaction back can hold back others of its lane, so that takes
/// as many rounds as it needs; there are never more than transactions.
pub open spec fn fast_lanes(
    owners: Map<ObjectId, Owner>,
    transactions: Seq<ExecutableTransaction>,
) -> Seq<Option<Address>> {
    lanes_after(transactions, candidates(owners, transactions), transactions.len())
}

/// Which lane uses each object, `None` where several do or one that has no lane.
pub open spec fn noted(
    usage: Map<ObjectId, Option<Address>>,
    references: Seq<DeclaredObjectRef>,
    lane: Option<Address>,
) -> Map<ObjectId, Option<Address>> {
    Map::new(
        |id: ObjectId| usage.contains_key(id) || refers_to(references, id),
        |id: ObjectId|
            if refers_to(references, id) {
                if usage.contains_key(id) && usage[id] != lane {
                    None
                } else {
                    lane
                }
            } else {
                usage[id]
            },
    )
}

/// Which lane uses each object of the first `count` transactions.
pub open spec fn usage_of(
    transactions: Seq<ExecutableTransaction>,
    lanes: Seq<Option<Address>>,
    count: nat,
) -> Map<ObjectId, Option<Address>>
    decreases count,
{
    if count == 0 {
        Map::empty()
    } else {
        noted(
            usage_of(transactions, lanes, (count - 1) as nat),
            transactions[count - 1].object_references@,
            lanes[count - 1],
        )
    }
}

proof fn lemma_usage(
    transactions: Seq<ExecutableTransaction>,
    lanes: Seq<Option<Address>>,
    count: nat,
    id: ObjectId,
)
    requires
        count <= lanes.len(),
    ensures
        ({
            let usage = usage_of(transactions, lanes, count);
            &&& usage.contains_key(id) <==> exists|i: int|
                0 <= i < count && #[trigger] uses(transactions, i, id)
            &&& usage.contains_key(id) && usage[id] is None <==> is_contended(
                transactions,
                lanes,
                count as int,
                id,
            )
            &&& usage.contains_key(id) && usage[id] is Some ==> forall|i: int|
                0 <= i < count && #[trigger] uses(transactions, i, id) ==> lanes[i] == usage[id]
        }),
    decreases count,
{
    if count > 0 {
        let before = (count - 1) as nat;
        lemma_usage(transactions, lanes, before, id);
        let earlier = usage_of(transactions, lanes, before);
        let usage = usage_of(transactions, lanes, count);
        let last = count - 1;
        if uses(transactions, last, id) {
            assert(usage.contains_key(id));
            if earlier.contains_key(id) {
                let i = choose|i: int| 0 <= i < before && #[trigger] uses(transactions, i, id);
                assert(uses(transactions, i, id));
                if usage[id] is None {
                    if earlier[id] is None {
                        if exists|i: int|
                            0 <= i < before && lanes[i] is None && #[trigger] uses(
                                transactions,
                                i,
                                id,
                            ) {
                            let w = choose|i: int|
                                0 <= i < before && lanes[i] is None && #[trigger] uses(
                                    transactions,
                                    i,
                                    id,
                                );
                            assert(uses(transactions, w, id));
                        } else {
                            let (v, w) = choose|v: int, w: int|
                                0 <= v < before && 0 <= w < before && lanes[v] != lanes[w]
                                    && #[trigger] uses(transactions, v, id) && #[trigger] uses(
                                    transactions,
                                    w,
                                    id,
                                );
                            assert(uses(transactions, v, id) && uses(transactions, w, id));
                        }
                    } else if lanes[last] is Some {
                        assert(lanes[i] != lanes[last]);
                    }
                    assert(is_contended(transactions, lanes, count as int, id));
                } else {
                    assert(earlier[id] == lanes[last]);
                    assert(!is_contended(transactions, lanes, count as int, id));
                }
            } else {
                assert forall|i: int| 0 <= i < count && #[trigger] uses(transactions, i, id) implies i
                    == last by {
                    if i < before {
                        assert(earlier.contains_key(id));
                    }
                }
            }
        } else {
            assert(usage.contains_key(id) == earlier.contains_key(id));
            if is_contended(transactions, lanes, before as int, id) {
                if exists|i: int|
                    0 <= i < before && lanes[i] is None && #[trigger] uses(transactions, i, id) {
                    let w = choose|i: int|
                        0 <= i < before && lanes[i] is None && #[trigger] uses(transactions, i, id);
                    assert(uses(transactions, w, id));
                } else {
                    let (v, w) = choose|v: int, w: int|
                        0 <= v < before && 0 <= w < before && lanes[v] != lanes[w]
                            && #[trigger] uses(transactions, v, id) && #[trigger] uses(
                            transactions,
                            w,
                            id,
                        );
                    assert(uses(transactions, v, id) && uses(transactions, w, id));
                }
                assert(is_contended(transactions, lanes, count as int, id));
            }
        }
    }
}

/// Whether two lanes are the same.
fn same_lane(left: &Option<Address>, right: &Option<Address>) -> (same: bool)
    ensures
        same == (*left == *right),
{
    match (left, right) {
        (Some(a), Some(b)) => *a == *b,
        (None, None) => true,
        _ => false,
    }
}

/// Notes which lane uses the objects of one transaction.
fn note_usage(
    usage: &mut OrderedMap<ObjectId, Option<Address>>,
    references: &[DeclaredObjectRef],
    lane: Option<Address>,
)
    ensures
        final(usage)@ == noted(old(usage)@, references@, lane),
{
    let ghost before = usage@;
    let mut index: usize = 0;
    assert(usage@ =~= noted(before, references@.take(0), lane));
    while index < references.len()
        invariant
            index <= references@.len(),
            usage@ == noted(before, references@.take(index as int), lane),
        decreases references@.len() - index,
    {
        let id = references[index].id;
        let ghost prefix = references@.take(index as int);
        let ghost next = references@.take(index + 1);
        let value = match usage.get(&id) {
            Some(existing) => if same_lane(existing, &lane) {
                lane
            } else {
                None
            },
            None => lane,
        };
        let ghost held = usage@;
        let _ = usage.insert(id, value);
        proof {
            assert(next =~= prefix.push(references@[index as int]));
            assert forall|other: ObjectId| refers_to(next, other) <==> refers_to(prefix, other)
                || other == id by {
                if refers_to(prefix, other) {
                    let i = choose|i: int| 0 <= i < prefix.len() && (#[trigger] prefix[i]).id == other;
                    assert(next[i].id == other);
                }
                if other == id {
                    assert(next[index as int].id == other);
                }
                if refers_to(next, other) && other != id {
                    let i = choose|i: int| 0 <= i < next.len() && (#[trigger] next[i]).id == other;
                    assert(prefix[i].id == other);
                }
            }
            let wanted = noted(before, next, lane);
            assert forall|other: ObjectId|
                #![trigger usage@.dom().contains(other)]
                #![trigger wanted.dom().contains(other)]
                usage@.dom().contains(other) == wanted.dom().contains(other) && (
                usage@.dom().contains(other) ==> usage@[other] == wanted[other]) by {
                assert(held.dom().contains(other) == noted(before, prefix, lane).dom().contains(other));
            }
            assert(usage@ =~= wanted);
        }
        index += 1;
    }
    assert(references@.take(index as int) =~= references@);
}

/// Whether one of the references is to an object that may not be used on a lane.
fn refers_to_contended(
    usage: &OrderedMap<ObjectId, Option<Address>>,
    references: &[DeclaredObjectRef],
) -> (found: bool)
    ensures
        found == exists|k: int|
            0 <= k < references@.len() && usage@.contains_key((#[trigger] references@[k]).id)
                && usage@[references@[k].id] is None,
{
    let mut index: usize = 0;
    while index < references.len()
        invariant
            index <= references@.len(),
            forall|k: int|
                0 <= k < index ==> !(usage@.contains_key((#[trigger] references@[k]).id)
                    && usage@[references@[k].id] is None),
        decreases references@.len() - index,
    {
        if let Some(lane) = usage.get(&references[index].id) {
            if lane.is_none() {
                return true;
            }
        }
        index += 1;
    }
    false
}

/// Holds back the transactions that refer to contended objects; `true` where
/// there was one on a lane.
fn demote(transactions: &[ExecutableTransaction], lanes: &mut Vec<Option<Address>>) -> (changed: bool)
    requires
        old(lanes)@.len() == transactions@.len(),
    ensures
        final(lanes)@ == demoted(transactions@, old(lanes)@),
        changed == (final(lanes)@ != old(lanes)@),
{
    let ghost before = lanes@;
    let mut usage: OrderedMap<ObjectId, Option<Address>> = OrderedMap::new();
    let mut index: usize = 0;
    while index < transactions.len()
        invariant
            index <= transactions@.len(),
            lanes@ == before,
            before.len() == transactions@.len(),
            usage@ == usage_of(transactions@, before, index as nat),
        decreases transactions@.len() - index,
    {
        note_usage(&mut usage, &transactions[index].object_references, lanes[index]);
        index += 1;
    }
    let mut changed = false;
    let mut at: usize = 0;
    while at < transactions.len()
        invariant
            at <= transactions@.len(),
            lanes@.len() == transactions@.len(),
            before.len() == transactions@.len(),
            usage@ == usage_of(transactions@, before, transactions@.len()),
            forall|i: int|
                0 <= i < at ==> #[trigger] lanes@[i] == demoted(transactions@, before)[i],
            forall|i: int| at <= i < lanes@.len() ==> #[trigger] lanes@[i] == before[i],
            changed == exists|i: int| 0 <= i < at && #[trigger] lanes@[i] != before[i],
        decreases transactions@.len() - at,
    {
        let held = refers_to_contended(&usage, &transactions[at].object_references);
        proof {
            let references = transactions@[at as int].object_references@;
            assert forall|k: int| 0 <= k < references.len() implies (usage@.contains_key(
                (#[trigger] references[k]).id,
            ) && usage@[references[k].id] is None) == is_contended(
                transactions@,
                before,
                transactions@.len() as int,
                references[k].id,
            ) by {
                lemma_usage(transactions@, before, transactions@.len(), references[k].id);
            }
            assert(held == is_held_back(transactions@, before, at as int));
        }
        let ghost previous = lanes@;
        if held && lanes[at].is_some() {
            lanes.set(at, None);
            changed = true;
            assert(lanes@[at as int] != before[at as int]);
        }
        proof {
            assert(lanes@[at as int] == demoted(transactions@, before)[at as int]);
            if exists|i: int| 0 <= i < at && #[trigger] previous[i] != before[i] {
                let i = choose|i: int| 0 <= i < at && #[trigger] previous[i] != before[i];
                assert(lanes@[i] != before[i]);
            }
        }
        at += 1;
    }
    assert(lanes@ =~= demoted(transactions@, before));
    proof {
        if !changed {
            assert(lanes@ =~= before);
        }
    }
    changed
}

/// Assigns each transaction to the lane of its owner, or to none where it has to
/// be validated at commit.
pub fn classify_fast_path(
    owners: &OrderedMap<ObjectId, Owner>,
    transactions: &[ExecutableTransaction],
) -> (lanes: Vec<Option<Address>>)
    ensures
        lanes@ == fast_lanes(owners@, transactions@),
        lanes@.len() == transactions@.len(),
{
    let mut lanes: Vec<Option<Address>> = Vec::new();
    let ghost first = candidates(owners@, transactions@);
    let mut index: usize = 0;
    while index < transactions.len()
        invariant
            index <= transactions@.len(),
            first == candidates(owners@, transactions@),
            lanes@ == first.take(index as int),
        decreases transactions@.len() - index,
    {
        lanes.push(fast_path_owner(owners, &transactions[index]));
        assert(lanes@ =~= first.take(index + 1));
        index += 1;
    }
    assert(lanes@ =~= first);
    let mut rounds: usize = 0;
    let mut settled = false;
    while !settled && rounds < transactions.len()
        invariant
            rounds <= transactions@.len(),
            lanes@.len() == transactions@.len(),
            lanes@ == lanes_after(transactions@, first, rounds as nat),
            settled ==> demoted(transactions@, lanes@) == lanes@,
        decreases
            transactions@.len() - rounds,
            if settled {
                0int
            } else {
                1int
            },
    {
        let ghost before = lanes@;
        let changed = demote(transactions, &mut lanes);
        rounds += 1;
        settled = !changed;
        proof {
            lemma_lanes_len(transactions@, first, rounds as nat);
        }
    }
    proof {
        if settled {
            lemma_settled(transactions@, first, rounds as nat, transactions@.len());
        }
    }
    lanes
}

proof fn lemma_lanes_len(
    transactions: Seq<ExecutableTransaction>,
    lanes: Seq<Option<Address>>,
    rounds: nat,
)
    ensures
        lanes_after(transactions, lanes, rounds).len() == lanes.len(),
    decreases rounds,
{
    if rounds > 0 {
        lemma_lanes_len(transactions, lanes, (rounds - 1) as nat);
    }
}

proof fn lemma_settled(
    transactions: Seq<ExecutableTransaction>,
    lanes: Seq<Option<Address>>,
    rounds: nat,
    later: nat,
)
    requires
        rounds <= later,
        demoted(transactions, lanes_after(transactions, lanes, rounds)) == lanes_after(
            transactions,
            lanes,
            rounds,
        ),
    ensures
        lanes_after(transactions, lanes, later) == lanes_after(transactions, lanes, rounds),
    decreases later,
{
    if rounds < later {
        lemma_settled(transactions, lanes, rounds, (later - 1) as nat);
    }
}

/// How many transactions have a lane.
pub open spec fn lane_count(lanes: Seq<Option<Address>>) -> nat
    decreases lanes.len(),
{
    if lanes.len() == 0 {
        0
    } else {
        lane_count(lanes.drop_last()) + if lanes.last() is Some {
            1nat
        } else {
            0nat
        }
    }
}

proof fn lemma_lane_count(left: Seq<Option<Address>>, right: Seq<Option<Address>>)
    requires
        left.len() == right.len(),
        forall|i: int| 0 <= i < left.len() ==> #[trigger] right[i] == left[i] || right[i] is None,
    ensures
        lane_count(right) <= lane_count(left) <= left.len(),
        right != left ==> lane_count(right) < lane_count(left),
    decreases left.len(),
{
    if left.len() > 0 {
        lemma_lane_count(left.drop_last(), right.drop_last());
        if right != left && right.last() == left.last() {
            assert(right.drop_last() != left.drop_last()) by {
                if right.drop_last() == left.drop_last() {
                    assert(right =~= right.drop_last().push(right.last()));
                    assert(left =~= left.drop_last().push(left.last()));
                }
            }
        }
    } else {
        assert(left =~= right);
    }
}

proof fn lemma_rounds_suffice(
    transactions: Seq<ExecutableTransaction>,
    lanes: Seq<Option<Address>>,
    rounds: nat,
)
    requires
        transactions.len() == lanes.len(),
    ensures
        demoted(transactions, lanes_after(transactions, lanes, rounds)) == lanes_after(
            transactions,
            lanes,
            rounds,
        ) || lane_count(lanes_after(transactions, lanes, rounds)) + rounds <= lane_count(lanes),
    decreases rounds,
{
    if rounds > 0 {
        let before = (rounds - 1) as nat;
        lemma_rounds_suffice(transactions, lanes, before);
        lemma_lanes_len(transactions, lanes, before);
        let earlier = lanes_after(transactions, lanes, before);
        let now = lanes_after(transactions, lanes, rounds);
        lemma_lane_count(earlier, now);
    }
}

/// The assignment of lanes is settled: no transaction on a lane refers to an
/// object that may not be used on one.
pub proof fn lemma_fast_lanes_settled(
    owners: Map<ObjectId, Owner>,
    transactions: Seq<ExecutableTransaction>,
)
    ensures
        demoted(transactions, fast_lanes(owners, transactions)) == fast_lanes(owners, transactions),
        fast_lanes(owners, transactions).len() == transactions.len(),
{
    let first = candidates(owners, transactions);
    let count = transactions.len();
    lemma_rounds_suffice(transactions, first, count);
    lemma_lanes_len(transactions, first, count);
    let last = fast_lanes(owners, transactions);
    lemma_lane_count(first, first);
    if demoted(transactions, last) != last {
        lemma_lane_count(last, demoted(transactions, last));
    }
}

/// A transaction that runs on a lane shares no object with any transaction
/// outside that lane.
pub proof fn law_fast_lanes_are_disjoint(
    owners: Map<ObjectId, Owner>,
    transactions: Seq<ExecutableTransaction>,
    i: int,
    j: int,
    id: ObjectId,
)
    requires
        0 <= i < transactions.len(),
        0 <= j < transactions.len(),
        fast_lanes(owners, transactions)[i] is Some,
        uses(transactions, i, id),
        uses(transactions, j, id),
    ensures
        fast_lanes(owners, transactions)[j] == fast_lanes(owners, transactions)[i],
{
    lemma_fast_lanes_settled(owners, transactions);
    let lanes = fast_lanes(owners, transactions);
    let k = choose|k: int|
        0 <= k < transactions[i].object_references@.len() && (
        #[trigger] transactions[i].object_references@[k]).id == id;
    assert(demoted(transactions, lanes)[i] is Some);
    assert(!is_contended(
        transactions,
        lanes,
        transactions.len() as int,
        transactions[i].object_references@[k].id,
    ));
}

/// Unit of speculative work: one transaction, or the transactions of one lane in
/// order, each by its position in the block.
#[derive(Debug, PartialEq, Eq)]
pub enum SpeculationTask {
    Optimistic(usize),
    FastLane(Vec<usize>),
}

/// The value of a task.
pub enum TaskModel {
    Optimistic(int),
    FastLane(Seq<int>),
}

impl View for SpeculationTask {
    type V = TaskModel;

    open spec fn view(&self) -> TaskModel {
        match self {
            SpeculationTask::Optimistic(index) => TaskModel::Optimistic(*index as int),
            SpeculationTask::FastLane(indexes) => TaskModel::FastLane(positions(indexes@)),
        }
    }
}

/// Positions as integers.
pub open spec fn positions(indexes: Seq<usize>) -> Seq<int> {
    indexes.map_values(|index: usize| index as int)
}

/// The positions of the first `count` transactions that are on a lane.
pub open spec fn members_of(lanes: Seq<Option<Address>>, lane: Option<Address>, count: int) -> Seq<
    int,
>
    decreases count,
{
    if count <= 0 {
        Seq::empty()
    } else {
        let earlier = members_of(lanes, lane, count - 1);
        if lanes[count - 1] == lane {
            earlier.push(count - 1)
        } else {
            earlier
        }
    }
}

/// The lanes that hold a transaction.
pub open spec fn lane_owners(lanes: Seq<Option<Address>>) -> Set<Address> {
    Set::new(|owner: Address| exists|i: int| 0 <= i < lanes.len() && #[trigger] lanes[i] == Some(owner))
}

/// The work of a block: its transactions without a lane one by one, then each
/// lane as a whole, in the order of their owners.
pub open spec fn tasks_of(lanes: Seq<Option<Address>>) -> Seq<TaskModel> {
    members_of(lanes, None, lanes.len() as int).map_values(|i: int| TaskModel::Optimistic(i))
        + sorted_keys(lane_owners(lanes)).map_values(
        |owner: Address|
            TaskModel::FastLane(members_of(lanes, Some(owner), lanes.len() as int)),
    )
}

/// The values of tasks.
pub open spec fn task_models(tasks: Seq<SpeculationTask>) -> Seq<TaskModel> {
    tasks.map_values(|task: SpeculationTask| task@)
}

/// The positions of the transactions that are on a lane, in order.
fn lane_members(lanes: &[Option<Address>], lane: Option<Address>) -> (members: Vec<usize>)
    ensures
        positions(members@) == members_of(lanes@, lane, lanes@.len() as int),
{
    let mut members: Vec<usize> = Vec::new();
    let mut index: usize = 0;
    assert(positions(members@) =~= members_of(lanes@, lane, 0));
    while index < lanes.len()
        invariant
            index <= lanes@.len(),
            positions(members@) == members_of(lanes@, lane, index as int),
        decreases lanes@.len() - index,
    {
        let ghost before = positions(members@);
        if same_lane(&lanes[index], &lane) {
            members.push(index);
            assert(positions(members@) =~= before.push(index as int));
        }
        index += 1;
    }
    members
}

/// The lanes that hold a transaction.
fn owners_of_lanes(lanes: &[Option<Address>]) -> (owners: OrderedSet<Address>)
    ensures
        owners@ == lane_owners(lanes@),
{
    let mut owners: OrderedSet<Address> = OrderedSet::new();
    let mut index: usize = 0;
    while index < lanes.len()
        invariant
            index <= lanes@.len(),
            forall|owner: Address| #[trigger]
                owners@.contains(owner) <==> exists|i: int|
                    0 <= i < index && #[trigger] lanes@[i] == Some(owner),
        decreases lanes@.len() - index,
    {
        let ghost before = owners@;
        if let Some(owner) = lanes[index] {
            owners.insert(owner);
        }
        proof {
            assert forall|owner: Address| #[trigger]
                owners@.contains(owner) <==> exists|i: int|
                0 <= i < index + 1 && #[trigger] lanes@[i] == Some(owner) by {
                if before.contains(owner) {
                    let i = choose|i: int| 0 <= i < index && #[trigger] lanes@[i] == Some(owner);
                    assert(lanes@[i] == Some(owner));
                }
                if lanes@[index as int] == Some(owner) {
                    assert(owners@.contains(owner));
                }
            }
        }
        index += 1;
    }
    assert(owners@ =~= lane_owners(lanes@));
    owners
}

fn add_task(tasks: &mut Vec<SpeculationTask>, task: SpeculationTask)
    ensures
        task_models(final(tasks)@) == task_models(old(tasks)@).push(task@),
{
    tasks.push(task);
    assert(task_models(tasks@) =~= task_models(old(tasks)@).push(task@));
}

/// Splits a block into speculative work.
pub fn build_tasks(lanes: &[Option<Address>]) -> (tasks: Vec<SpeculationTask>)
    ensures
        task_models(tasks@) == tasks_of(lanes@),
{
    let alone = lane_members(lanes, None);
    let ghost singles = positions(alone@).map_values(|i: int| TaskModel::Optimistic(i));
    let mut tasks: Vec<SpeculationTask> = Vec::new();
    let mut index: usize = 0;
    assert(task_models(tasks@) =~= singles.take(0));
    while index < alone.len()
        invariant
            index <= alone@.len(),
            singles == positions(alone@).map_values(|i: int| TaskModel::Optimistic(i)),
            task_models(tasks@) == singles.take(index as int),
        decreases alone@.len() - index,
    {
        add_task(&mut tasks, SpeculationTask::Optimistic(alone[index]));
        assert(singles.take(index + 1) =~= singles.take(index as int).push(singles[index as int]));
        index += 1;
    }
    assert(singles.take(index as int) =~= singles);
    let owners = owners_of_lanes(lanes).keys();
    let ghost whole = owners@.map_values(
        |owner: Address| TaskModel::FastLane(members_of(lanes@, Some(owner), lanes@.len() as int)),
    );
    let mut at: usize = 0;
    assert(task_models(tasks@) =~= singles + whole.take(0));
    while at < owners.len()
        invariant
            at <= owners@.len(),
            whole == owners@.map_values(
                |owner: Address|
                    TaskModel::FastLane(members_of(lanes@, Some(owner), lanes@.len() as int)),
            ),
            task_models(tasks@) == singles + whole.take(at as int),
        decreases owners@.len() - at,
    {
        add_task(&mut tasks, SpeculationTask::FastLane(lane_members(lanes, Some(owners[at]))));
        assert(singles + whole.take(at + 1) =~= (singles + whole.take(at as int)).push(
            whole[at as int],
        ));
        at += 1;
    }
    assert(whole.take(at as int) =~= whole);
    tasks
}

/// Every transaction is in exactly the work of its own lane: alone where it has
/// none, once and in block order where it has one.
pub proof fn law_every_transaction_is_scheduled_once(
    lanes: Seq<Option<Address>>,
    lane: Option<Address>,
    position: int,
)
    requires
        0 <= position < lanes.len(),
    ensures
        members_of(lanes, lane, lanes.len() as int).contains(position) <==> lanes[position] == lane,
        members_of(lanes, lane, lanes.len() as int).no_duplicates(),
        forall|a: int, b: int|
            0 <= a < b < members_of(lanes, lane, lanes.len() as int).len() ==> members_of(
                lanes,
                lane,
                lanes.len() as int,
            )[a] < members_of(lanes, lane, lanes.len() as int)[b],
        lanes[position] matches Some(owner) ==> lane_owners(lanes).contains(owner),
{
    lemma_members(lanes, lane, lanes.len() as int);
    if let Some(owner) = lanes[position] {
        assert(lanes[position] == Some(owner));
    }
}

/// What the positions of a lane are: those of its transactions, in block order.
pub proof fn lemma_members(lanes: Seq<Option<Address>>, lane: Option<Address>, count: int)
    requires
        0 <= count <= lanes.len(),
    ensures
        ({
            let members = members_of(lanes, lane, count);
            &&& forall|position: int|
                members.contains(position) <==> 0 <= position < count && lanes[position] == lane
            &&& forall|a: int| 0 <= a < members.len() ==> 0 <= #[trigger] members[a] < count
            &&& forall|a: int, b: int|
                0 <= a < b < members.len() ==> #[trigger] members[a] < #[trigger] members[b]
        }),
    decreases count,
{
    if count > 0 {
        lemma_members(lanes, lane, count - 1);
        let earlier = members_of(lanes, lane, count - 1);
        let members = members_of(lanes, lane, count);
        assert forall|position: int| members.contains(position) <==> 0 <= position < count
            && lanes[position] == lane by {
            if earlier.contains(position) {
                let a = choose|a: int| 0 <= a < earlier.len() && earlier[a] == position;
                assert(members[a] == position);
            }
            if lanes[count - 1] == lane {
                assert(members[earlier.len() as int] == count - 1);
            }
            if members.contains(position) {
                let a = choose|a: int| 0 <= a < members.len() && members[a] == position;
                if a < earlier.len() {
                    assert(earlier[a] == position);
                }
            }
        }
    }
}

/// The least number of tasks that one worker takes at a time.
pub fn minimum_grain(task_count: usize, worker_count: usize) -> (grain: usize)
    requires
        worker_count > 0,
    ensures
        worker_count <= usize::MAX / 4 ==> grain == (if task_count == 0 {
            1
        } else {
            (task_count + 4 * worker_count - 1) / (4 * worker_count)
        }),
        worker_count > usize::MAX / 4 ==> grain == 1,
        grain >= 1,
        task_count <= grain * (4 * worker_count),
        grain > 1 ==> (grain - 1) * (4 * worker_count) < task_count,
{
    let slots: usize = match worker_count.checked_mul(4) {
        Some(slots) => slots,
        None => {
            return 1;
        },
    };
    let whole: usize = task_count / slots;
    proof {
        vstd::arithmetic::div_mod::lemma_fundamental_div_mod(task_count as int, slots as int);
        assert(4 * whole <= slots * whole == whole * slots) by (nonlinear_arith)
            requires
                slots >= 4,
        ;
    }
    let grain: usize = if task_count % slots == 0 {
        whole
    } else {
        whole + 1
    };
    proof {
        let rest = task_count % slots;
        if rest == 0 {
            vstd::arithmetic::div_mod::lemma_fundamental_div_mod_converse(
                task_count + slots - 1,
                slots as int,
                whole as int,
                slots - 1,
            );
        } else {
            assert((whole + 1) * slots == slots * whole + slots) by (nonlinear_arith);
            vstd::arithmetic::div_mod::lemma_fundamental_div_mod_converse(
                task_count + slots - 1,
                slots as int,
                whole + 1,
                rest - 1,
            );
        }
    }
    assert((grain - 1) * slots < task_count || grain == 0) by (nonlinear_arith)
        requires
            task_count == slots * whole + task_count % slots,
            0 <= task_count % slots < slots,
            grain == whole && task_count % slots == 0 || grain == whole + 1 && task_count % slots
                > 0,
    ;
    if grain == 0 {
        assert(slots * whole == 0) by (nonlinear_arith)
            requires
                whole == 0,
        ;
        1
    } else {
        grain
    }
}

} // verus!
