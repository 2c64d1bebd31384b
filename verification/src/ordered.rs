//! Maps and sets kept in key order.
//!
//! Entries live in one vector sorted by a strict total order on the keys, so
//! every walk over a collection visits its keys in one deterministic order.

use vstd::prelude::*;

verus! {

/// A key type with a strict total order.
pub trait SortKey: Copy {
    /// `self` comes strictly before `other`.
    spec fn precedes(self, other: Self) -> bool;

    proof fn precedes_irreflexive(x: Self)
        ensures
            !x.precedes(x),
    ;

    proof fn precedes_transitive(x: Self, y: Self, z: Self)
        requires
            x.precedes(y),
            y.precedes(z),
        ensures
            x.precedes(z),
    ;

    proof fn precedes_total(x: Self, y: Self)
        ensures
            x.precedes(y) || x == y || y.precedes(x),
    ;

    fn is_before(&self, other: &Self) -> (before: bool)
        ensures
            before == self.precedes(*other),
    ;
}

/// Every key of the sequence comes strictly before all later ones.
pub open spec fn strictly_sorted<K: SortKey>(keys: Seq<K>) -> bool {
    forall|i: int, j: int| #![trigger keys[i], keys[j]]
        0 <= i < j < keys.len() ==> keys[i].precedes(keys[j])
}

/// The keys of a sequence of entries.
pub open spec fn keys_of<K, V>(pairs: Seq<(K, V)>) -> Seq<K> {
    pairs.map_values(|pair: (K, V)| pair.0)
}

/// The position of a key among sorted entries.
pub open spec fn has_key_at<K, V>(pairs: Seq<(K, V)>, key: K, i: int) -> bool {
    0 <= i < pairs.len() && pairs[i].0 == key
}

/// The mapping that a sequence of entries stands for.
pub open spec fn map_of<K, V>(pairs: Seq<(K, V)>) -> Map<K, V> {
    Map::new(
        |key: K| exists|i: int| has_key_at(pairs, key, i),
        |key: K| pairs[choose|i: int| has_key_at(pairs, key, i)].1,
    )
}

proof fn lemma_unique_position<K: SortKey, V>(pairs: Seq<(K, V)>, i: int, j: int)
    requires
        strictly_sorted(keys_of(pairs)),
        0 <= i < pairs.len(),
        0 <= j < pairs.len(),
        pairs[i].0 == pairs[j].0,
    ensures
        i == j,
{
    assert(keys_of(pairs)[i] == pairs[i].0);
    assert(keys_of(pairs)[j] == pairs[j].0);
    K::precedes_irreflexive(pairs[i].0);
}

proof fn lemma_map_of_at<K: SortKey, V>(pairs: Seq<(K, V)>, i: int)
    requires
        strictly_sorted(keys_of(pairs)),
        0 <= i < pairs.len(),
    ensures
        map_of(pairs).contains_key(pairs[i].0),
        map_of(pairs)[pairs[i].0] == pairs[i].1,
{
    let key = pairs[i].0;
    assert(has_key_at(pairs, key, i));
    let j = choose|j: int| has_key_at(pairs, key, j);
    lemma_unique_position(pairs, i, j);
}

proof fn lemma_map_of_len<K: SortKey, V>(pairs: Seq<(K, V)>)
    requires
        strictly_sorted(keys_of(pairs)),
    ensures
        map_of(pairs).dom().finite(),
        map_of(pairs).dom().len() == pairs.len(),
{
    let keys = keys_of(pairs);
    assert forall|i: int, j: int| 0 <= i < keys.len() && 0 <= j < keys.len() && i != j implies
        keys[i] != keys[j] by {
        if keys[i] == keys[j] {
            lemma_unique_position(pairs, i, j);
        }
    }
    keys.unique_seq_to_set();
    assert forall|key: K| map_of(pairs).dom().contains(key) <==> keys.to_set().contains(key) by {
        if map_of(pairs).dom().contains(key) {
            let i = choose|i: int| has_key_at(pairs, key, i);
            assert(keys[i] == key);
        }
        if keys.to_set().contains(key) {
            let i = choose|i: int| 0 <= i < keys.len() && keys[i] == key;
            assert(has_key_at(pairs, key, i));
        }
    }
    assert(map_of(pairs).dom() =~= keys.to_set());
}

/// A mapping from sorted keys to values.
#[derive(Debug, PartialEq, Eq)]
pub struct OrderedMap<K: SortKey, V> {
    pairs: Vec<(K, V)>,
}

impl<K: SortKey, V> View for OrderedMap<K, V> {
    type V = Map<K, V>;

    closed spec fn view(&self) -> Map<K, V> {
        map_of(self.pairs@)
    }
}

impl<K: SortKey, V> OrderedMap<K, V> {
    #[verifier::type_invariant]
    spec fn sorted(self) -> bool {
        strictly_sorted(keys_of(self.pairs@))
    }

    /// The entries in key order.
    pub closed spec fn entries(&self) -> Seq<(K, V)> {
        self.pairs@
    }

    /// An empty map.
    pub fn new() -> (map: Self)
        ensures
            map@ == Map::<K, V>::empty(),
            map.entries() == Seq::<(K, V)>::empty(),
    {
        let map = OrderedMap { pairs: Vec::new() };
        assert(map@ =~= Map::<K, V>::empty());
        map
    }

    /// The number of entries.
    pub fn len(&self) -> (count: usize)
        ensures
            count == self@.dom().len(),
            count == self.entries().len(),
            self@.dom().finite(),
            strictly_sorted(keys_of(self.entries())),
            self@ == map_of(self.entries()),
    {
        proof {
            use_type_invariant(self);
            lemma_map_of_len(self.pairs@);
        }
        self.pairs.len()
    }

    /// Whether there are no entries.
    pub fn is_empty(&self) -> (empty: bool)
        ensures
            empty == (self@ == Map::<K, V>::empty()),
    {
        proof {
            use_type_invariant(self);
            lemma_map_of_len(self.pairs@);
            if self.pairs@.len() == 0 {
                assert(self@ =~= Map::<K, V>::empty());
            } else {
                lemma_map_of_at(self.pairs@, 0);
            }
        }
        self.pairs.len() == 0
    }

    /// The first position whose key does not come before `key`.
    fn lower_bound(&self, key: &K) -> (position: usize)
        ensures
            position <= self.pairs@.len(),
            forall|i: int| 0 <= i < position ==> (#[trigger] self.pairs@[i]).0.precedes(*key),
            forall|i: int|
                position <= i < self.pairs@.len() ==> !(#[trigger] self.pairs@[i]).0.precedes(*key),
    {
        proof {
            use_type_invariant(self);
        }
        let mut low: usize = 0;
        let mut high: usize = self.pairs.len();
        while low < high
            invariant
                strictly_sorted(keys_of(self.pairs@)),
                low <= high <= self.pairs@.len(),
                forall|i: int| 0 <= i < low ==> (#[trigger] self.pairs@[i]).0.precedes(*key),
                forall|i: int|
                    high <= i < self.pairs@.len() ==> !(#[trigger] self.pairs@[i]).0.precedes(*key),
            decreases high - low,
        {
            let middle: usize = low + (high - low) / 2;
            if self.pairs[middle].0.is_before(key) {
                assert forall|i: int| 0 <= i < middle + 1 implies (
                #[trigger] self.pairs@[i]).0.precedes(*key) by {
                    if i < middle {
                        assert(keys_of(self.pairs@)[i].precedes(keys_of(self.pairs@)[middle as int]));
                        K::precedes_transitive(self.pairs@[i].0, self.pairs@[middle as int].0, *key);
                    }
                }
                low = middle + 1;
            } else {
                assert forall|i: int| middle <= i < self.pairs@.len() implies !(
                #[trigger] self.pairs@[i]).0.precedes(*key) by {
                    if i > middle && self.pairs@[i].0.precedes(*key) {
                        assert(keys_of(self.pairs@)[middle as int].precedes(keys_of(self.pairs@)[i]));
                        K::precedes_transitive(self.pairs@[middle as int].0, self.pairs@[i].0, *key);
                    }
                }
                high = middle;
            }
        }
        low
    }

    /// The position of `key`, or the position where it belongs.
    fn search(&self, key: &K) -> (found: (usize, bool))
        ensures
            found.0 <= self.pairs@.len(),
            forall|i: int| 0 <= i < found.0 ==> (#[trigger] self.pairs@[i]).0.precedes(*key),
            forall|i: int|
                found.0 <= i < self.pairs@.len() ==> !(#[trigger] self.pairs@[i]).0.precedes(*key),
            found.1 == self@.contains_key(*key),
            found.1 ==> found.0 < self.pairs@.len() && self.pairs@[found.0 as int].0 == *key
                && self@[*key] == self.pairs@[found.0 as int].1,
            !found.1 ==> forall|i: int|
                found.0 <= i < self.pairs@.len() ==> key.precedes((#[trigger] self.pairs@[i]).0),
    {
        let position: usize = self.lower_bound(key);
        let ghost pairs = self.pairs@;
        proof {
            use_type_invariant(self);
        }
        if position < self.pairs.len() && !key.is_before(&self.pairs[position].0) {
            proof {
                K::precedes_total(*key, pairs[position as int].0);
                lemma_map_of_at(pairs, position as int);
            }
            (position, true)
        } else {
            proof {
                assert forall|i: int| position <= i < pairs.len() implies key.precedes(
                    (#[trigger] pairs[i]).0,
                ) by {
                    if i > position {
                        assert(keys_of(pairs)[position as int].precedes(keys_of(pairs)[i]));
                        K::precedes_transitive(*key, pairs[position as int].0, pairs[i].0);
                    }
                }
                if self@.contains_key(*key) {
                    let i = choose|i: int| has_key_at(pairs, *key, i);
                    assert(pairs[i].0 == *key);
                    K::precedes_irreflexive(*key);
                }
            }
            (position, false)
        }
    }

    /// Whether `key` has an entry.
    pub fn contains_key(&self, key: &K) -> (found: bool)
        ensures
            found == self@.contains_key(*key),
    {
        self.search(key).1
    }

    /// The value of `key`.
    pub fn get(&self, key: &K) -> (value: Option<&V>)
        ensures
            value == (if self@.contains_key(*key) {
                Some(&self@[*key])
            } else {
                None
            }),
    {
        let (position, found) = self.search(key);
        if found {
            Some(&self.pairs[position].1)
        } else {
            None
        }
    }

    /// Sets the value of `key` and returns the value it replaces.
    pub fn insert(&mut self, key: K, value: V) -> (previous: Option<V>)
        ensures
            final(self)@ == old(self)@.insert(key, value),
            previous == (if old(self)@.contains_key(key) {
                Some(old(self)@[key])
            } else {
                None
            }),
    {
        let (position, found) = self.search(&key);
        proof {
            use_type_invariant(&*self);
        }
        let mut pairs: Vec<(K, V)> = Vec::new();
        std::mem::swap(&mut pairs, &mut self.pairs);
        let ghost before = pairs@;
        let previous = if found {
            let (_, value) = pairs.remove(position);
            assert(pairs@ =~= before.remove(position as int));
            Some(value)
        } else {
            None
        };
        pairs.insert(position, (key, value));
        proof {
            if found {
                assert(pairs@ =~= before.update(position as int, (key, value)));
                assert(keys_of(pairs@) =~= keys_of(before));
            } else {
                assert(pairs@ == before.insert(position as int, (key, value)));
                lemma_sorted_insert(before, position as int, key, value);
            }
            lemma_map_of_put(before, pairs@, position as int, found, key, value);
        }
        self.pairs = pairs;
        previous
    }

    /// Drops the entry of `key` and returns its value.
    pub fn remove(&mut self, key: &K) -> (previous: Option<V>)
        ensures
            final(self)@ == old(self)@.remove(*key),
            previous == (if old(self)@.contains_key(*key) {
                Some(old(self)@[*key])
            } else {
                None
            }),
    {
        let (position, found) = self.search(key);
        proof {
            use_type_invariant(&*self);
        }
        if !found {
            assert(self@.remove(*key) =~= self@);
            return None;
        }
        let mut pairs: Vec<(K, V)> = Vec::new();
        std::mem::swap(&mut pairs, &mut self.pairs);
        let ghost before = pairs@;
        let (_, value) = pairs.remove(position);
        proof {
            lemma_sorted_remove(before, position as int);
            lemma_map_of_remove(before, position as int);
        }
        self.pairs = pairs;
        Some(value)
    }

    /// The keys in order.
    pub fn keys(&self) -> (keys: Vec<K>)
        ensures
            keys@ == keys_of(self.entries()),
            keys@ == sorted_keys(self@.dom()),
            strictly_sorted(keys@),
            keys@.len() == self@.dom().len(),
            self@.dom().finite(),
            forall|key: K| keys@.contains(key) <==> self@.contains_key(key),
    {
        proof {
            use_type_invariant(self);
            lemma_map_of_len(self.pairs@);
        }
        let mut keys: Vec<K> = Vec::new();
        let mut index: usize = 0;
        while index < self.pairs.len()
            invariant
                index <= self.pairs@.len(),
                keys@ == keys_of(self.pairs@).take(index as int),
            decreases self.pairs@.len() - index,
        {
            keys.push(self.pairs[index].0);
            index += 1;
            assert(keys@ =~= keys_of(self.pairs@).take(index as int));
        }
        assert(keys@ =~= keys_of(self.pairs@));
        proof {
            assert forall|key: K| keys@.contains(key) <==> self@.contains_key(key) by {
                if keys@.contains(key) {
                    let i = choose|i: int| 0 <= i < keys@.len() && keys@[i] == key;
                    assert(has_key_at(self.pairs@, key, i));
                }
                if self@.contains_key(key) {
                    let i = choose|i: int| has_key_at(self.pairs@, key, i);
                    assert(keys@[i] == key);
                }
            }
            lemma_sorted_keys(keys@);
            assert(keys@.to_set() =~= self@.dom());
        }
        keys
    }

    /// The last key in order.
    pub fn last_key(&self) -> (key: Option<K>)
        ensures
            key is None <==> self@ == Map::<K, V>::empty(),
            key matches Some(k) ==> self@.contains_key(k) && forall|other: K| #[trigger]
                self@.contains_key(other) ==> other == k || other.precedes(k),
    {
        proof {
            use_type_invariant(self);
        }
        let count: usize = self.pairs.len();
        if count == 0 {
            assert(self@ =~= Map::<K, V>::empty());
            None
        } else {
            let key = self.pairs[count - 1].0;
            proof {
                lemma_map_of_at(self.pairs@, count - 1);
                assert forall|other: K| self@.contains_key(other) implies other == key
                    || other.precedes(key) by {
                    let i = choose|i: int| has_key_at(self.pairs@, other, i);
                    if i < count - 1 {
                        assert(keys_of(self.pairs@)[i].precedes(keys_of(self.pairs@)[count - 1]));
                    }
                }
            }
            Some(key)
        }
    }

}

impl<K: SortKey, V: Copy> OrderedMap<K, V> {
    /// An equal copy of the map.
    pub fn copy(&self) -> (copy: Self)
        ensures
            copy@ == self@,
            copy.entries() == self.entries(),
    {
        proof {
            use_type_invariant(self);
        }
        let mut pairs: Vec<(K, V)> = Vec::new();
        let mut index: usize = 0;
        while index < self.pairs.len()
            invariant
                index <= self.pairs@.len(),
                pairs@ == self.pairs@.take(index as int),
            decreases self.pairs@.len() - index,
        {
            pairs.push((self.pairs[index].0, self.pairs[index].1));
            index += 1;
            assert(pairs@ =~= self.pairs@.take(index as int));
        }
        assert(pairs@ =~= self.pairs@);
        OrderedMap { pairs }
    }
}

proof fn lemma_sorted_insert<K: SortKey, V>(pairs: Seq<(K, V)>, position: int, key: K, value: V)
    requires
        strictly_sorted(keys_of(pairs)),
        0 <= position <= pairs.len(),
        forall|i: int| 0 <= i < position ==> (#[trigger] pairs[i]).0.precedes(key),
        forall|i: int| position <= i < pairs.len() ==> key.precedes((#[trigger] pairs[i]).0),
    ensures
        strictly_sorted(keys_of(pairs.insert(position, (key, value)))),
{
    let after = pairs.insert(position, (key, value));
    let keys = keys_of(after);
    assert forall|i: int, j: int| #![trigger keys[i], keys[j]]
        0 <= i < j < keys.len() implies keys[i].precedes(keys[j]) by {
        let a = if i < position { i } else { i - 1 };
        let b = if j < position { j } else { j - 1 };
        if i != position && j != position {
            assert(keys_of(pairs)[a].precedes(keys_of(pairs)[b]));
        } else if i == position {
            assert(key.precedes(pairs[b].0));
        } else {
            assert(pairs[a].0.precedes(key));
        }
    }
}

proof fn lemma_sorted_remove<K: SortKey, V>(pairs: Seq<(K, V)>, position: int)
    requires
        strictly_sorted(keys_of(pairs)),
        0 <= position < pairs.len(),
    ensures
        strictly_sorted(keys_of(pairs.remove(position))),
{
    let keys = keys_of(pairs.remove(position));
    assert forall|i: int, j: int| #![trigger keys[i], keys[j]]
        0 <= i < j < keys.len() implies keys[i].precedes(keys[j]) by {
        let a = if i < position { i } else { i + 1 };
        let b = if j < position { j } else { j + 1 };
        assert(keys_of(pairs)[a].precedes(keys_of(pairs)[b]));
    }
}

proof fn lemma_map_of_put<K: SortKey, V>(
    before: Seq<(K, V)>,
    after: Seq<(K, V)>,
    position: int,
    found: bool,
    key: K,
    value: V,
)
    requires
        strictly_sorted(keys_of(before)),
        strictly_sorted(keys_of(after)),
        0 <= position <= before.len(),
        found ==> position < before.len() && before[position].0 == key && after == before.update(
            position,
            (key, value),
        ),
        !found ==> after == before.insert(position, (key, value)),
    ensures
        map_of(after) == map_of(before).insert(key, value),
{
    let left = map_of(after);
    let right = map_of(before).insert(key, value);
    lemma_map_of_at(after, position);
    assert forall|k: K| #[trigger] left.contains_key(k) <==> right.contains_key(k) by {
        if left.contains_key(k) && k != key {
            let i = choose|i: int| has_key_at(after, k, i);
            let j = if found || i < position { i } else { i - 1 };
            assert(has_key_at(before, k, j));
        }
        if right.contains_key(k) && k != key {
            let j = choose|j: int| has_key_at(before, k, j);
            let i = if found || j < position { j } else { j + 1 };
            assert(has_key_at(after, k, i));
        }
    }
    assert forall|k: K| #[trigger] left.contains_key(k) implies left[k] == right[k] by {
        let i = choose|i: int| has_key_at(after, k, i);
        lemma_map_of_at(after, i);
        if k != key {
            let j = if found || i < position { i } else { i - 1 };
            lemma_map_of_at(before, j);
        }
    }
    assert(left =~= right);
}

proof fn lemma_map_of_remove<K: SortKey, V>(before: Seq<(K, V)>, position: int)
    requires
        strictly_sorted(keys_of(before)),
        0 <= position < before.len(),
    ensures
        map_of(before.remove(position)) == map_of(before).remove(before[position].0),
{
    let key = before[position].0;
    let after = before.remove(position);
    lemma_sorted_remove(before, position);
    let left = map_of(after);
    let right = map_of(before).remove(key);
    assert forall|k: K| #[trigger] left.contains_key(k) <==> right.contains_key(k) by {
        if left.contains_key(k) {
            let i = choose|i: int| has_key_at(after, k, i);
            let j = if i < position { i } else { i + 1 };
            assert(has_key_at(before, k, j));
            if k == key {
                lemma_unique_position(before, position, j);
            }
        }
        if right.contains_key(k) {
            let j = choose|j: int| has_key_at(before, k, j);
            let i = if j < position { j } else { j - 1 };
            assert(has_key_at(after, k, i));
        }
    }
    assert forall|k: K| #[trigger] left.contains_key(k) implies left[k] == right[k] by {
        let i = choose|i: int| has_key_at(after, k, i);
        lemma_map_of_at(after, i);
        let j = if i < position { i } else { i + 1 };
        lemma_map_of_at(before, j);
    }
    assert(left =~= right);
}

/// A set of sorted keys.
#[derive(Debug, PartialEq, Eq)]
pub struct OrderedSet<K: SortKey> {
    members: OrderedMap<K, ()>,
}

impl<K: SortKey> View for OrderedSet<K> {
    type V = Set<K>;

    closed spec fn view(&self) -> Set<K> {
        self.members@.dom()
    }
}

impl<K: SortKey> OrderedSet<K> {
    /// An empty set.
    pub fn new() -> (set: Self)
        ensures
            set@ == Set::<K>::empty(),
    {
        let set = OrderedSet { members: OrderedMap::new() };
        assert(set@ =~= Set::<K>::empty());
        set
    }

    /// The set of the given keys.
    pub fn from_keys(keys: &[K]) -> (set: Self)
        ensures
            set@ == keys@.to_set(),
    {
        let mut set = OrderedSet::new();
        let mut index: usize = 0;
        while index < keys.len()
            invariant
                index <= keys@.len(),
                set@ == keys@.take(index as int).to_set(),
            decreases keys@.len() - index,
        {
            set.insert(keys[index]);
            proof {
                let next = keys@.take(index + 1);
                assert(next =~= keys@.take(index as int).push(keys@[index as int]));
                assert forall|k: K| set@.contains(k) <==> next.to_set().contains(k) by {
                    let shorter = keys@.take(index as int);
                    if shorter.contains(k) {
                        let i = choose|i: int| 0 <= i < shorter.len() && shorter[i] == k;
                        assert(next[i] == k);
                    }
                    if k == keys@[index as int] {
                        assert(next[index as int] == k);
                    }
                }
                assert(set@ =~= next.to_set());
            }
            index += 1;
        }
        assert(keys@.take(index as int) =~= keys@);
        set
    }

    /// The number of keys.
    pub fn len(&self) -> (count: usize)
        ensures
            count == self@.len(),
            self@.finite(),
    {
        self.members.len()
    }

    /// Whether there are no keys.
    pub fn is_empty(&self) -> (empty: bool)
        ensures
            empty == (self@ == Set::<K>::empty()),
    {
        let empty = self.members.is_empty();
        proof {
            if empty {
                assert(self@ =~= Set::<K>::empty());
            } else if self@ == Set::<K>::empty() {
                assert(self.members@ =~= Map::<K, ()>::empty());
            }
        }
        empty
    }

    /// Whether `key` is in the set.
    pub fn contains(&self, key: &K) -> (found: bool)
        ensures
            found == self@.contains(*key),
    {
        self.members.contains_key(key)
    }

    /// Puts `key` into the set; `true` where it was not there before.
    pub fn insert(&mut self, key: K) -> (added: bool)
        ensures
            final(self)@ == old(self)@.insert(key),
            added == !old(self)@.contains(key),
    {
        let added = self.members.insert(key, ()).is_none();
        assert(self@ =~= old(self)@.insert(key));
        added
    }

    /// Takes `key` out of the set; `true` where it was there before.
    pub fn remove(&mut self, key: &K) -> (removed: bool)
        ensures
            final(self)@ == old(self)@.remove(*key),
            removed == old(self)@.contains(*key),
    {
        let removed = self.members.remove(key).is_some();
        assert(self@ =~= old(self)@.remove(*key));
        removed
    }

    /// The keys in order.
    pub fn keys(&self) -> (keys: Vec<K>)
        ensures
            keys@ == sorted_keys(self@),
            strictly_sorted(keys@),
            keys@.len() == self@.len(),
            self@.finite(),
            forall|key: K| keys@.contains(key) <==> self@.contains(key),
    {
        self.members.keys()
    }

    /// An equal copy of the set.
    pub fn copy(&self) -> (copy: Self)
        ensures
            copy@ == self@,
    {
        OrderedSet { members: self.members.copy() }
    }
}

impl SortKey for u64 {
    open spec fn precedes(self, other: Self) -> bool {
        self < other
    }

    proof fn precedes_irreflexive(x: Self) {
    }

    proof fn precedes_transitive(x: Self, y: Self, z: Self) {
    }

    proof fn precedes_total(x: Self, y: Self) {
    }

    fn is_before(&self, other: &Self) -> (before: bool) {
        *self < *other
    }
}

impl SortKey for u16 {
    open spec fn precedes(self, other: Self) -> bool {
        self < other
    }

    proof fn precedes_irreflexive(x: Self) {
    }

    proof fn precedes_transitive(x: Self, y: Self, z: Self) {
    }

    proof fn precedes_total(x: Self, y: Self) {
    }

    fn is_before(&self, other: &Self) -> (before: bool) {
        *self < *other
    }
}

/// A record that is sorted by a key it holds.
pub trait Keyed<K: SortKey> {
    /// The key of the record.
    spec fn sort_key(&self) -> K;

    fn key(&self) -> (key: K)
        ensures
            key == self.sort_key(),
    ;
}

/// No record of the sequence has a key that comes before the key of an earlier one.
pub open spec fn ascending<K: SortKey, T: Keyed<K>>(items: Seq<T>) -> bool {
    forall|i: int, j: int| #![trigger items[i], items[j]]
        0 <= i < j < items.len() ==> !items[j].sort_key().precedes(items[i].sort_key())
}

proof fn lemma_insert_multiset<T>(items: Seq<T>, position: int, item: T)
    requires
        0 <= position <= items.len(),
    ensures
        items.insert(position, item).to_multiset() == items.to_multiset().insert(item),
{
    broadcast use vstd::seq_lib::group_to_multiset_ensures;

    let after = items.insert(position, item);
    assert(after.remove(position) =~= items);
    assert(after[position] == item);
    assert(after.contains(item));
    assert(after.to_multiset().count(item) > 0);
    assert(after.to_multiset() =~= items.to_multiset().insert(item));
}

/// The same records in ascending key order.
pub fn sort_by_key<K: SortKey, T: Keyed<K>>(items: Vec<T>) -> (sorted: Vec<T>)
    ensures
        sorted@.to_multiset() == items@.to_multiset(),
        ascending::<K, T>(sorted@),
{
    broadcast use vstd::seq_lib::group_to_multiset_ensures;

    let ghost all = items@;
    let mut rest = items;
    let mut sorted: Vec<T> = Vec::new();
    proof {
        assert(sorted@.to_multiset() =~= vstd::multiset::Multiset::<T>::empty());
        assert(rest@.to_multiset().add(sorted@.to_multiset()) =~= all.to_multiset());
    }
    while rest.len() > 0
        invariant
            rest@.to_multiset().add(sorted@.to_multiset()) == all.to_multiset(),
            ascending::<K, T>(sorted@),
        decreases rest@.len(),
    {
        let ghost rest_before = rest@;
        let ghost sorted_before = sorted@;
        let item = rest.remove(0);
        let mut position: usize = sorted.len();
        while position > 0 && item.key().is_before(&sorted[position - 1].key())
            invariant
                position <= sorted@.len(),
                sorted@ == sorted_before,
                ascending::<K, T>(sorted@),
                forall|i: int|
                    position <= i < sorted@.len() ==> item.sort_key().precedes(
                        (#[trigger] sorted@[i]).sort_key(),
                    ),
            decreases position,
        {
            position -= 1;
        }
        proof {
            rest_before.to_multiset_ensures();
            assert(rest@ == rest_before.remove(0));
            assert(rest@.to_multiset() == rest_before.to_multiset().remove(item));
            assert(rest_before[0] == item);
            assert(rest_before.to_multiset().count(item) > 0);
            lemma_insert_multiset(sorted_before, position as int, item);
            let after = sorted_before.insert(position as int, item);
            assert(rest@.to_multiset().add(after.to_multiset()) =~= rest_before.to_multiset().add(
                sorted_before.to_multiset(),
            ));
            assert forall|i: int, j: int| #![trigger after[i], after[j]]
                0 <= i < j < after.len() implies !after[j].sort_key().precedes(
                after[i].sort_key(),
            ) by {
                let a = if i < position { i } else { i - 1 };
                let b = if j < position { j } else { j - 1 };
                let key = item.sort_key();
                if i == position {
                    let other = sorted_before[b].sort_key();
                    assert(key.precedes(other));
                    if other.precedes(key) {
                        K::precedes_transitive(key, other, key);
                        K::precedes_irreflexive(key);
                    }
                } else if j == position {
                    let other = sorted_before[a].sort_key();
                    if key.precedes(other) {
                        let bound = sorted_before[position - 1].sort_key();
                        assert(!key.precedes(bound));
                        if a < position - 1 {
                            assert(!bound.precedes(other));
                            K::precedes_total(bound, other);
                            if other.precedes(bound) {
                                K::precedes_transitive(key, other, bound);
                            }
                        }
                    }
                } else {
                    assert(!sorted_before[b].sort_key().precedes(sorted_before[a].sort_key()));
                }
            }
        }
        sorted.insert(position, item);
    }
    proof {
        assert(rest@.to_multiset() =~= vstd::multiset::Multiset::<T>::empty());
        assert(sorted@.to_multiset() =~= all.to_multiset());
    }
    sorted
}

/// The sum of a weight over all values of a finite map.
pub open spec fn sum_over<K, V>(map: Map<K, V>, weight: spec_fn(V) -> nat) -> nat
    decreases map.dom().len(),
    when map.dom().finite()
{
    if map.dom().len() == 0 {
        0
    } else {
        let key = map.dom().choose();
        weight(map[key]) + sum_over(map.remove(key), weight)
    }
}

/// An entry contributes its own weight to the sum.
pub proof fn lemma_sum_remove<K, V>(map: Map<K, V>, weight: spec_fn(V) -> nat, key: K)
    requires
        map.dom().finite(),
        map.contains_key(key),
    ensures
        sum_over(map, weight) == weight(map[key]) + sum_over(map.remove(key), weight),
    decreases map.dom().len(),
{
    let first = map.dom().choose();
    if first != key {
        lemma_sum_remove(map.remove(first), weight, key);
        lemma_sum_remove(map.remove(key), weight, first);
        assert(map.remove(first).remove(key) =~= map.remove(key).remove(first));
    }
}

/// A new entry adds its weight to the sum.
pub proof fn lemma_sum_insert<K, V>(map: Map<K, V>, weight: spec_fn(V) -> nat, key: K, value: V)
    requires
        map.dom().finite(),
        !map.contains_key(key),
    ensures
        sum_over(map.insert(key, value), weight) == weight(value) + sum_over(map, weight),
{
    lemma_sum_remove(map.insert(key, value), weight, key);
    assert(map.insert(key, value).remove(key) =~= map);
}

/// A replaced entry exchanges its weight in the sum.
pub proof fn lemma_sum_replace<K, V>(map: Map<K, V>, weight: spec_fn(V) -> nat, key: K, value: V)
    requires
        map.dom().finite(),
        map.contains_key(key),
    ensures
        sum_over(map.insert(key, value), weight) + weight(map[key]) == sum_over(map, weight)
            + weight(value),
{
    lemma_sum_remove(map, weight, key);
    lemma_sum_remove(map.insert(key, value), weight, key);
    assert(map.insert(key, value).remove(key) =~= map.remove(key));
}

/// The members of a set in ascending order.
pub open spec fn sorted_keys<K: SortKey>(keys: Set<K>) -> Seq<K> {
    choose|sorted: Seq<K>| strictly_sorted(sorted) && sorted.to_set() == keys
}

/// There is one ascending sequence of the members of a set.
pub proof fn lemma_sorted_keys_unique<K: SortKey>(left: Seq<K>, right: Seq<K>)
    requires
        strictly_sorted(left),
        strictly_sorted(right),
        left.to_set() == right.to_set(),
    ensures
        left == right,
    decreases left.len(),
{
    if left.len() == 0 {
        if right.len() > 0 {
            assert(right.to_set().contains(right[0]));
            assert(left.to_set().contains(right[0]));
        }
        assert(left =~= right);
    } else {
        assert(left.to_set().contains(left.last()));
        assert(right.to_set().contains(left.last()));
        let i = choose|i: int| 0 <= i < right.len() && right[i] == left.last();
        assert(right.to_set().contains(right.last()));
        assert(left.to_set().contains(right.last()));
        let j = choose|j: int| 0 <= j < left.len() && left[j] == right.last();
        K::precedes_irreflexive(left.last());
        if i < right.len() - 1 {
            assert(right[i].precedes(right[right.len() - 1]));
            if j < left.len() - 1 {
                assert(left[j].precedes(left[left.len() - 1]));
                K::precedes_transitive(left.last(), right.last(), left.last());
            }
        }
        assert(left.last() == right.last());
        let shorter_left = left.drop_last();
        let shorter_right = right.drop_last();
        assert forall|a: int, b: int| #![trigger shorter_left[a], shorter_left[b]]
            0 <= a < b < shorter_left.len() implies shorter_left[a].precedes(shorter_left[b]) by {
            assert(left[a].precedes(left[b]));
        }
        assert forall|a: int, b: int| #![trigger shorter_right[a], shorter_right[b]]
            0 <= a < b < shorter_right.len() implies shorter_right[a].precedes(
            shorter_right[b],
        ) by {
            assert(right[a].precedes(right[b]));
        }
        lemma_set_without_last(left);
        lemma_set_without_last(right);
        lemma_sorted_keys_unique(shorter_left, shorter_right);
        assert(left =~= shorter_left.push(left.last()));
        assert(right =~= shorter_right.push(right.last()));
    }
}

proof fn lemma_set_without_last<K: SortKey>(keys: Seq<K>)
    requires
        strictly_sorted(keys),
        keys.len() > 0,
    ensures
        keys.drop_last().to_set() == keys.to_set().remove(keys.last()),
{
    let shorter = keys.drop_last();
    assert forall|k: K| shorter.to_set().contains(k) <==> keys.to_set().remove(
        keys.last(),
    ).contains(k) by {
        if shorter.contains(k) {
            let a = choose|a: int| 0 <= a < shorter.len() && shorter[a] == k;
            assert(keys[a] == k);
            assert(keys[a].precedes(keys[keys.len() - 1]));
            K::precedes_irreflexive(k);
        }
        if keys.contains(k) && k != keys.last() {
            let a = choose|a: int| 0 <= a < keys.len() && keys[a] == k;
            assert(shorter[a] == k);
        }
    }
    assert(shorter.to_set() =~= keys.to_set().remove(keys.last()));
}

/// A strictly ascending sequence is the ascending sequence of its members.
pub proof fn lemma_sorted_keys<K: SortKey>(sorted: Seq<K>)
    requires
        strictly_sorted(sorted),
    ensures
        sorted_keys(sorted.to_set()) == sorted,
{
    let chosen = sorted_keys(sorted.to_set());
    assert(strictly_sorted(sorted) && sorted.to_set() == sorted.to_set());
    lemma_sorted_keys_unique(chosen, sorted);
}

/// A key finds its place in an ascending sequence.
proof fn lemma_key_finds_place<K: SortKey>(sorted: Seq<K>, key: K) -> (longer: Seq<K>)
    requires
        strictly_sorted(sorted),
        !sorted.contains(key),
    ensures
        strictly_sorted(longer),
        forall|one: K| #[trigger] longer.contains(one) <==> sorted.contains(one) || one == key,
    decreases sorted.len(),
{
    if sorted.len() == 0 || sorted.last().precedes(key) {
        let longer = sorted.push(key);
        assert forall|i: int, j: int| 0 <= i < j < longer.len() implies (
        #[trigger] longer[i]).precedes(#[trigger] longer[j]) by {
            if j == sorted.len() && i < sorted.len() - 1 {
                assert(sorted[i].precedes(sorted[sorted.len() - 1]));
                K::precedes_transitive(sorted[i], sorted.last(), key);
            }
        }
        assert forall|one: K| #[trigger] longer.contains(one) <==> sorted.contains(one) || one
            == key by {
            assert(longer[sorted.len() as int] == key);
            if sorted.contains(one) {
                let k = choose|k: int| 0 <= k < sorted.len() && sorted[k] == one;
                assert(longer[k] == one);
            }
        }
        longer
    } else {
        let shorter = sorted.drop_last();
        let last = sorted.last();
        assert(!shorter.contains(key)) by {
            if shorter.contains(key) {
                let k = choose|k: int| 0 <= k < shorter.len() && shorter[k] == key;
                assert(sorted[k] == key);
            }
        }
        assert(sorted.contains(last));
        K::precedes_total(last, key);
        let placed = lemma_key_finds_place(shorter, key);
        let longer = placed.push(last);
        assert forall|i: int| 0 <= i < placed.len() implies (#[trigger] placed[i]).precedes(last) by {
            assert(placed.contains(placed[i]));
            if placed[i] != key {
                let k = choose|k: int| 0 <= k < shorter.len() && shorter[k] == placed[i];
                assert(sorted[k].precedes(sorted[sorted.len() - 1]));
            }
        }
        assert forall|i: int, j: int| 0 <= i < j < longer.len() implies (
        #[trigger] longer[i]).precedes(#[trigger] longer[j]) by {
            if j == placed.len() {
                assert(placed[i].precedes(last));
            }
        }
        assert forall|one: K| #[trigger] longer.contains(one) <==> sorted.contains(one) || one
            == key by {
            if longer.contains(one) {
                let k = choose|k: int| 0 <= k < longer.len() && longer[k] == one;
                if k < placed.len() {
                    assert(placed[k] == one);
                    assert(placed.contains(one));
                    if one != key {
                        let m = choose|m: int| 0 <= m < shorter.len() && shorter[m] == one;
                        assert(sorted[m] == one);
                    }
                }
            }
            if sorted.contains(one) {
                let k = choose|k: int| 0 <= k < sorted.len() && sorted[k] == one;
                if k < shorter.len() {
                    assert(shorter[k] == one);
                    assert(placed.contains(one));
                    let m = choose|m: int| 0 <= m < placed.len() && placed[m] == one;
                    assert(longer[m] == one);
                } else {
                    assert(longer[placed.len() as int] == one);
                }
            }
            if one == key {
                assert(placed.contains(key));
                let m = choose|m: int| 0 <= m < placed.len() && placed[m] == key;
                assert(longer[m] == key);
            }
        }
        longer
    }
}

/// The members of a finite set stand in one ascending sequence: each of them, and
/// nothing else.
pub proof fn lemma_sorted_keys_of_finite<K: SortKey>(keys: Set<K>)
    requires
        keys.finite(),
    ensures
        strictly_sorted(sorted_keys(keys)),
        sorted_keys(keys).to_set() == keys,
        forall|key: K| #[trigger] sorted_keys(keys).contains(key) <==> keys.contains(key),
    decreases keys.len(),
{
    if keys.len() == 0 {
        let none = Seq::<K>::empty();
        assert(none.to_set() =~= keys);
        lemma_sorted_keys(none);
    } else {
        let key = keys.choose();
        let rest = keys.remove(key);
        lemma_sorted_keys_of_finite(rest);
        let shorter = sorted_keys(rest);
        assert(!shorter.contains(key));
        let longer = lemma_key_finds_place(shorter, key);
        assert(longer.to_set() =~= keys) by {
            assert forall|one: K| longer.to_set().contains(one) <==> keys.contains(one) by {
                assert(longer.contains(one) <==> shorter.contains(one) || one == key);
            }
        }
        lemma_sorted_keys(longer);
    }
    let sorted = sorted_keys(keys);
    assert forall|key: K| #[trigger] sorted.contains(key) <==> keys.contains(key) by {
        assert(sorted.to_set().contains(key) <==> sorted.contains(key));
    }
}

/// No item of the sequence has a key that comes before the key of an earlier one.
pub open spec fn ascending_by<K: SortKey, T>(items: Seq<T>, key: spec_fn(T) -> K) -> bool {
    forall|i: int, j: int| #![trigger items[i], items[j]]
        0 <= i < j < items.len() ==> !key(items[j]).precedes(key(items[i]))
}

/// No two items of the sequence have the same key.
pub open spec fn distinct_by<K, T>(items: Seq<T>, key: spec_fn(T) -> K) -> bool {
    forall|i: int, j: int| #![trigger items[i], items[j]]
        0 <= i < j < items.len() ==> key(items[i]) != key(items[j])
}

/// There is one ascending order of items with distinct keys.
pub proof fn lemma_ascending_by_unique<K: SortKey, T>(
    left: Seq<T>,
    right: Seq<T>,
    key: spec_fn(T) -> K,
)
    requires
        left.to_multiset() == right.to_multiset(),
        ascending_by(left, key),
        ascending_by(right, key),
        distinct_by(left, key),
    ensures
        left == right,
{
    broadcast use vstd::seq_lib::group_to_multiset_ensures;

    left.to_multiset_ensures();
    right.to_multiset_ensures();
    assert(left.len() == right.len());
    assert forall|item: T| left.contains(item) <==> right.contains(item) by {
        assert(left.contains(item) <==> left.to_multiset().count(item) > 0);
        assert(right.contains(item) <==> right.to_multiset().count(item) > 0);
    }
    let left_keys = left.map_values(key);
    let right_keys = right.map_values(key);
    assert forall|i: int, j: int| 0 <= i < j < left.len() implies (
    #[trigger] left_keys[i]).precedes(#[trigger] left_keys[j]) by {
        assert(!key(left[j]).precedes(key(left[i])));
        assert(key(left[i]) != key(left[j]));
        K::precedes_total(key(left[i]), key(left[j]));
    }
    assert(strictly_sorted(left_keys));
    lemma_distinct_by(left, right, key);
    assert forall|i: int, j: int| 0 <= i < j < right.len() implies (
    #[trigger] right_keys[i]).precedes(#[trigger] right_keys[j]) by {
        assert(!key(right[j]).precedes(key(right[i])));
        assert(key(right[i]) != key(right[j]));
        K::precedes_total(key(right[i]), key(right[j]));
    }
    assert(strictly_sorted(right_keys));
    assert forall|one: K| left_keys.to_set().contains(one) <==> right_keys.to_set().contains(one) by {
        if left_keys.contains(one) {
            let i = choose|i: int| 0 <= i < left_keys.len() && left_keys[i] == one;
            assert(left.contains(left[i]));
            let j = choose|j: int| 0 <= j < right.len() && right[j] == left[i];
            assert(right_keys[j] == one);
        }
        if right_keys.contains(one) {
            let i = choose|i: int| 0 <= i < right_keys.len() && right_keys[i] == one;
            assert(right.contains(right[i]));
            let j = choose|j: int| 0 <= j < left.len() && left[j] == right[i];
            assert(left_keys[j] == one);
        }
    }
    assert(left_keys.to_set() =~= right_keys.to_set());
    lemma_sorted_keys_unique(left_keys, right_keys);
    assert forall|i: int| 0 <= i < left.len() implies left[i] == right[i] by {
        assert(left_keys[i] == right_keys[i]);
        assert(right.contains(right[i]));
        let j = choose|j: int| 0 <= j < left.len() && left[j] == right[i];
        if i < j {
            assert(key(left[i]) != key(left[j]));
        } else if j < i {
            assert(key(left[j]) != key(left[i]));
        }
    }
    assert(left =~= right);
}

/// There is one ascending order of records with distinct keys.
pub proof fn lemma_ascending_unique<K: SortKey, T: Keyed<K>>(left: Seq<T>, right: Seq<T>)
    requires
        left.to_multiset() == right.to_multiset(),
        ascending::<K, T>(left),
        ascending::<K, T>(right),
        forall|i: int, j: int|
            0 <= i < j < left.len() ==> (#[trigger] left[i]).sort_key() != (
            #[trigger] left[j]).sort_key(),
    ensures
        left == right,
{
    lemma_ascending_by_unique(left, right, |item: T| item.sort_key());
}

/// Two places of a sequence stand for two places of any sequence with the same
/// items.
pub proof fn lemma_two_places<T>(left: Seq<T>, right: Seq<T>, i: int, j: int) -> (places: (int, int))
    requires
        left.to_multiset() == right.to_multiset(),
        0 <= i < right.len(),
        0 <= j < right.len(),
        i != j,
    ensures
        0 <= places.0 < left.len(),
        0 <= places.1 < left.len(),
        places.0 != places.1,
        left[places.0] == right[i],
        left[places.1] == right[j],
{
    broadcast use vstd::seq_lib::group_to_multiset_ensures;

    assert(right.contains(right[i]) && right.contains(right[j]));
    assert(right.to_multiset().count(right[i]) > 0);
    assert(right.to_multiset().count(right[j]) > 0);
    assert(left.contains(right[i]) && left.contains(right[j]));
    let a = choose|a: int| 0 <= a < left.len() && left[a] == right[i];
    let b = choose|b: int| 0 <= b < left.len() && left[b] == right[j];
    if a != b {
        (a, b)
    } else {
        // The same item twice: it is twice in the other order as well.
        let once = right.remove(i);
        let k = if j < i {
            j
        } else {
            j - 1
        };
        assert(once[k] == right[j]);
        assert(once.contains(right[j]));
        assert(once.to_multiset().count(right[j]) > 0);
        assert(right.to_multiset() =~= once.to_multiset().insert(right[i]));
        assert(right.to_multiset().count(right[i]) >= 2);
        let rest = left.remove(a);
        assert(left.to_multiset() =~= rest.to_multiset().insert(left[a]));
        assert(rest.to_multiset().count(left[a]) > 0);
        assert(rest.contains(left[a]));
        let c = choose|c: int| 0 <= c < rest.len() && rest[c] == left[a];
        let d = if c < a {
            c
        } else {
            c + 1
        };
        assert(left[d] == left[a] && d != a);
        (a, d)
    }
}

/// Items with distinct keys keep them distinct in any order.
pub proof fn lemma_distinct_by<K, T>(left: Seq<T>, right: Seq<T>, key: spec_fn(T) -> K)
    requires
        left.to_multiset() == right.to_multiset(),
        distinct_by(left, key),
    ensures
        distinct_by(right, key),
{
    assert forall|i: int, j: int| #![trigger right[i], right[j]]
        0 <= i < j < right.len() implies key(right[i]) != key(right[j]) by {
        let (a, b) = lemma_two_places(left, right, i, j);
        if a < b {
            assert(key(left[a]) != key(left[b]));
        } else {
            assert(key(left[b]) != key(left[a]));
        }
    }
}

/// Sequences that have the same items, in whatever order, have the same items still
/// once each item is mapped.
pub proof fn lemma_map_multiset<T, U>(left: Seq<T>, right: Seq<T>, value: spec_fn(T) -> U)
    requires
        left.to_multiset() == right.to_multiset(),
    ensures
        left.map_values(value).to_multiset() == right.map_values(value).to_multiset(),
    decreases left.len(),
{
    broadcast use vstd::seq_lib::group_to_multiset_ensures;

    left.to_multiset_ensures();
    right.to_multiset_ensures();
    assert(left.len() == right.len());
    if left.len() == 0 {
        assert(left.map_values(value) =~= right.map_values(value));
    } else {
        let item = left.last();
        assert(left.contains(item));
        assert(left.to_multiset().count(item) > 0);
        assert(right.contains(item));
        let k = choose|k: int| 0 <= k < right.len() && right[k] == item;
        let shorter = left.drop_last();
        let rest = right.remove(k);
        assert(left =~= shorter.push(item));
        assert(left.remove(left.len() - 1) =~= shorter);
        assert(shorter.to_multiset() =~= left.to_multiset().remove(item));
        assert(rest.to_multiset() =~= right.to_multiset().remove(item));
        lemma_map_multiset(shorter, rest, value);
        assert(left.map_values(value) =~= shorter.map_values(value).push(value(item)));
        let mapped = right.map_values(value);
        mapped.to_multiset_ensures();
        assert(mapped.remove(k) =~= rest.map_values(value));
        assert(mapped.contains(mapped[k]));
        assert(mapped.to_multiset() =~= rest.map_values(value).to_multiset().insert(value(item)));
    }
}

} // verus!
