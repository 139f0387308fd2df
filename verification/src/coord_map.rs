//! A map from grid positions to values, with the values in an arena and a
//! hash map from each position to its slot in the arena. The hash map finds
//! a position in constant expected time; the arena lets a value be changed
//! in place and hands out the positions one by one.

use crate::math::IVec3;
use bevy::platform::collections::HashMap;
use bevy::platform::hash::FixedHasher;
use vstd::prelude::*;

verus! {

/// A grid position as the hash map holds it.
pub type CoordKey = (i32, i32, i32);

/// `bevy::platform::collections::HashMap`, the hash map of the engine.
/// Nothing is known of what is inside one but what `index_entries` names
/// and the four functions below claim of it: none of that is proved here.
#[verifier::external_type_specification]
#[verifier::external_body]
#[verifier::reject_recursive_types(K)]
#[verifier::reject_recursive_types(V)]
#[verifier::reject_recursive_types(S)]
pub struct ExHashMap<K, V, S>(HashMap<K, V, S>);

/// `bevy::platform::hash::FixedHasher`, the hasher that the engine's hash map
/// uses where none is named.
#[verifier::external_type_specification]
#[verifier::external_body]
pub struct ExFixedHasher(FixedHasher);

/// What a hash map from positions to slots holds: the slot of each position
/// that was inserted and not removed since. The name has no definition: the
/// functions below say how the engine's map changes it.
pub uninterp spec fn index_entries(index: HashMap<CoordKey, usize>) -> Map<CoordKey, usize>;

/// `bevy::platform::collections::HashMap::new`. Claimed: the new map holds
/// nothing.
#[verifier::external_body]
fn index_new() -> (index: HashMap<CoordKey, usize>)
    ensures
        (index_entries(index) == Map::<CoordKey, usize>::empty()),
{
    HashMap::new()
}

/// `bevy::platform::collections::HashMap::get`. Claimed: the result is the
/// slot that the map holds for `key`, and `None` where it holds none.
#[verifier::external_body]
fn index_get(index: &HashMap<CoordKey, usize>, key: CoordKey) -> (slot: Option<usize>)
    ensures
        slot == (if index_entries(*index).contains_key(key) {
            Some(index_entries(*index)[key])
        } else {
            None
        }),
{
    index.get(&key).copied()
}

/// `bevy::platform::collections::HashMap::insert`. Claimed: afterwards the
/// map holds `slot` for `key` and is unchanged elsewhere; the result is the
/// slot that it held for `key` before.
#[verifier::external_body]
fn index_insert(index: &mut HashMap<CoordKey, usize>, key: CoordKey, slot: usize) -> (previous:
    Option<usize>)
    ensures
        index_entries(*final(index)) == index_entries(*old(index)).insert(key, slot),
        previous == (if index_entries(*old(index)).contains_key(key) {
            Some(index_entries(*old(index))[key])
        } else {
            None
        }),
{
    index.insert(key, slot)
}

/// `bevy::platform::collections::HashMap::remove`. Claimed: afterwards the
/// map holds nothing for `key` and is unchanged elsewhere; the result is the
/// slot that it held for `key` before.
#[verifier::external_body]
fn index_remove(index: &mut HashMap<CoordKey, usize>, key: CoordKey) -> (removed: Option<usize>)
    ensures
        index_entries(*final(index)) == index_entries(*old(index)).remove(key),
        removed == (if index_entries(*old(index)).contains_key(key) {
            Some(index_entries(*old(index))[key])
        } else {
            None
        }),
{
    index.remove(&key)
}

/// The form in which the hash map holds the position `p`.
pub open spec fn key_of(p: IVec3) -> CoordKey {
    (p.x, p.y, p.z)
}

/// A map from grid positions to values of type `V`.
pub struct CoordMap<V> {
    index: HashMap<CoordKey, usize>,
    keys: Vec<IVec3>,
    values: Vec<V>,
}

impl<V> View for CoordMap<V> {
    type V = Map<IVec3, V>;

    closed spec fn view(&self) -> Map<IVec3, V> {
        Map::new(
            |p: IVec3| index_entries(self.index).contains_key(key_of(p)),
            |p: IVec3| self.values@[index_entries(self.index)[key_of(p)] as int],
        )
    }
}

impl<V> CoordMap<V> {
    /// The arena holds one key and one value for each position of the index,
    /// at the slot that the index gives, and nothing else.
    #[verifier::type_invariant]
    closed spec fn well_formed(self) -> bool {
        &&& self.keys@.len() == self.values@.len()
        &&& forall|i: int|
            0 <= i < self.keys@.len() ==> index_entries(self.index).contains_key(
                key_of(#[trigger] self.keys@[i]),
            ) && index_entries(self.index)[key_of(self.keys@[i])] == i
        &&& forall|k: CoordKey| #[trigger]
            index_entries(self.index).contains_key(k) ==> index_entries(self.index)[k]
                < self.keys@.len() && key_of(self.keys@[index_entries(self.index)[k] as int])
                == k
    }

    /// The positions of the map, each once, in the order of their slots.
    pub closed spec fn key_seq(&self) -> Seq<IVec3> {
        self.keys@
    }

    /// A map that holds nothing.
    pub fn new() -> (map: Self)
        ensures
            map@ == Map::<IVec3, V>::empty(),
            map.key_seq() == Seq::<IVec3>::empty(),
    {
        let map = CoordMap { index: index_new(), keys: Vec::new(), values: Vec::new() };
        assert(map@ =~= Map::<IVec3, V>::empty());
        map
    }

    /// The number of positions that the map holds.
    pub fn len(&self) -> (n: usize)
        ensures
            n == self@.len(),
            n == self.key_seq().len(),
            self@.dom().finite(),
    {
        proof {
            use_type_invariant(self);
            assert forall|i: int, j: int|
                0 <= i < self.keys@.len() && 0 <= j < self.keys@.len() && i != j implies self.keys@[i]
                != self.keys@[j] by {
                assert(index_entries(self.index)[key_of(self.keys@[i])] == i);
                assert(index_entries(self.index)[key_of(self.keys@[j])] == j);
            }
            self.keys@.unique_seq_to_set();
            assert(self.keys@.to_set() =~= self@.dom()) by {
                assert forall|p: IVec3| self.keys@.to_set().contains(p) <==> self@.dom().contains(
                    p,
                ) by {
                    if self@.dom().contains(p) {
                        let slot = index_entries(self.index)[key_of(p)] as int;
                        assert(key_of(self.keys@[slot]) == key_of(p));
                        assert(self.keys@[slot] == p);
                    }
                    if self.keys@.to_set().contains(p) {
                        let i = choose|i: int| 0 <= i < self.keys@.len() && self.keys@[i] == p;
                        assert(index_entries(self.index).contains_key(key_of(self.keys@[i])));
                    }
                }
            }
        }
        self.keys.len()
    }

    pub fn contains_key(&self, position: IVec3) -> (found: bool)
        ensures
            found == self@.contains_key(position),
    {
        index_get(&self.index, (position.x, position.y, position.z)).is_some()
    }

    /// The value at `position`, if the map holds one.
    pub fn get(&self, position: IVec3) -> (value: Option<&V>)
        ensures
            match value {
                Some(v) => self@.contains_key(position) && self@[position] == *v,
                None => !self@.contains_key(position),
            },
    {
        proof {
            use_type_invariant(self);
        }
        match index_get(&self.index, (position.x, position.y, position.z)) {
            Some(slot) => Some(&self.values[slot]),
            None => None,
        }
    }

    /// The value at `position`, to be changed in place, if the map holds one.
    pub fn get_mut(&mut self, position: IVec3) -> (value: Option<&mut V>)
        ensures
            match value {
                Some(v) => old(self)@.contains_key(position) && old(self)@[position] == *v
                    && final(self)@ == old(self)@.insert(position, *final(v)),
                None => !old(self)@.contains_key(position) && final(self)@ == old(self)@,
            },
    {
        proof {
            use_type_invariant(&*self);
        }
        match index_get(&self.index, (position.x, position.y, position.z)) {
            Some(slot) => Some(&mut self.values[slot]),
            None => None,
        }
    }

    /// Puts `value` at `position`. The result is the value that the map held
    /// there before.
    pub fn insert(&mut self, position: IVec3, value: V) -> (previous: Option<V>)
        ensures
            final(self)@ == old(self)@.insert(position, value),
            previous == (if old(self)@.contains_key(position) {
                Some(old(self)@[position])
            } else {
                None
            }),
    {
        proof {
            use_type_invariant(&*self);
        }
        let ghost before = *self;
        let mut taken = Self::new();
        std::mem::swap(self, &mut taken);
        let CoordMap { mut index, mut keys, mut values } = taken;
        let key = (position.x, position.y, position.z);
        let previous = match index_get(&index, key) {
            Some(slot) => {
                values.push(value);
                let replaced = values.swap_remove(slot);
                Some(replaced)
            },
            None => {
                let slot = keys.len();
                let _ = index_insert(&mut index, key, slot);
                keys.push(position);
                values.push(value);
                None
            },
        };
        *self = CoordMap { index, keys, values };
        assert(self@ =~= before@.insert(position, value));
        previous
    }

    /// Takes out what the map holds at `position`. The result is the value
    /// that it held there.
    pub fn remove(&mut self, position: IVec3) -> (removed: Option<V>)
        ensures
            final(self)@ == old(self)@.remove(position),
            removed == (if old(self)@.contains_key(position) {
                Some(old(self)@[position])
            } else {
                None
            }),
    {
        proof {
            use_type_invariant(&*self);
        }
        let ghost before = *self;
        let mut taken = Self::new();
        std::mem::swap(self, &mut taken);
        let CoordMap { mut index, mut keys, mut values } = taken;
        let key = (position.x, position.y, position.z);
        let removed = match index_remove(&mut index, key) {
            Some(slot) => {
                let last = keys.len() - 1;
                let _ = keys.swap_remove(slot);
                let value = values.swap_remove(slot);
                if slot < last {
                    let moved = keys[slot];
                    let _ = index_insert(&mut index, (moved.x, moved.y, moved.z), slot);
                }
                Some(value)
            },
            None => None,
        };
        *self = CoordMap { index, keys, values };
        assert(self@ =~= before@.remove(position));
        removed
    }

    /// The positions of the map, each once.
    pub fn keys(&self) -> (keys: Vec<IVec3>)
        ensures
            keys@ == self.key_seq(),
            keys@.no_duplicates(),
            forall|p: IVec3| keys@.contains(p) <==> self@.contains_key(p),
    {
        proof {
            use_type_invariant(self);
        }
        let mut keys: Vec<IVec3> = Vec::new();
        let mut i: usize = 0;
        while i < self.keys.len()
            invariant
                i <= self.keys@.len(),
                keys@ == self.keys@.subrange(0, i as int),
            decreases self.keys@.len() - i,
        {
            keys.push(self.keys[i]);
            assert(keys@ =~= self.keys@.subrange(0, i + 1));
            i += 1;
        }
        assert(keys@ =~= self.keys@);
        assert forall|p: IVec3| keys@.contains(p) <==> self@.contains_key(p) by {
            if self@.contains_key(p) {
                let slot = index_entries(self.index)[key_of(p)] as int;
                assert(key_of(self.keys@[slot]) == key_of(p));
                assert(self.keys@[slot] == p);
            }
        }
        keys
    }
}

/// True where `p` stands among the first `n` of `positions`.
pub open spec fn among_first(positions: Seq<IVec3>, n: int, p: IVec3) -> bool {
    exists|j: int| 0 <= j < n && positions[j] == p
}

/// Going through positions that are all different, the next one is new, and
/// after it the positions seen are those seen before and it.
pub proof fn lemma_among_first_step(positions: Seq<IVec3>, i: int, q: IVec3)
    requires
        positions.no_duplicates(),
        0 <= i < positions.len(),
    ensures
        !among_first(positions, i, positions[i]),
        among_first(positions, i + 1, q) <==> among_first(positions, i, q) || q == positions[i],
{
    if among_first(positions, i, positions[i]) {
        let j = choose|j: int| 0 <= j < i && positions[j] == positions[i];
        assert(positions[j] == positions[i]);
    }
    if among_first(positions, i, q) {
        let j = choose|j: int| 0 <= j < i && positions[j] == q;
        assert(0 <= j < i + 1 && positions[j] == q);
    }
    if q == positions[i] {
        assert(0 <= i < i + 1 && positions[i] == q);
    }
}

/// At the end all positions have been seen, and before the first none.
pub proof fn lemma_among_first_ends(positions: Seq<IVec3>, q: IVec3)
    ensures
        among_first(positions, positions.len() as int, q) <==> positions.contains(q),
        !among_first(positions, 0, q),
{
    if positions.contains(q) {
        let j = choose|j: int| 0 <= j < positions.len() && positions[j] == q;
        assert(0 <= j < positions.len() && positions[j] == q);
    }
    if among_first(positions, positions.len() as int, q) {
        let j = choose|j: int| 0 <= j < positions.len() && positions[j] == q;
        assert(positions[j] == q);
    }
}

} // verus!
