//! A slot store whose keys never come back to life.

use vstd::prelude::*;

verus! {

/// A handle to one insertion: the slot, and how often it had been vacated before.
#[derive(Clone, Copy, PartialEq, Eq, Structural, Debug)]
pub struct Key {
    pub index: u32,
    pub generation: u32,
}

#[derive(Debug)]
struct Slot<T> {
    generation: u32,
    value: Option<T>,
}

/// Values addressed by [`Key`]. A removed value's slot is reused under a new generation, so the old
/// key addresses nothing from then on.
#[derive(Debug)]
pub struct Arena<T> {
    slots: Vec<Slot<T>>,
}

/// Whether `keys` lists every key of `live` once, in slot order.
pub open spec fn lists_keys<T>(live: Map<Key, T>, keys: Seq<Key>) -> bool {
    &&& forall|i: int, j: int| 0 <= i < j < keys.len() ==> keys[i].index < keys[j].index
    &&& forall|key: Key| #[trigger] keys.contains(key) <==> live.contains_key(key)
}

/// Whether some slot can be used again.
pub open spec fn has_vacancy(vacant: Set<u32>) -> bool {
    exists|i: u32| #[trigger] vacant.contains(i)
}

/// Whether `key` takes a slot as a new value does: one that can be used again where there is one, and else
/// the next new one.
pub open spec fn takes_slot(slots: nat, vacant: Set<u32>, key: Key) -> bool {
    if has_vacancy(vacant) {
        vacant.contains(key.index)
    } else {
        key == (Key { index: slots as u32, generation: 0 })
    }
}

/// The number of slots once one more value is stored: it grows only where no slot can be used again.
pub open spec fn slots_after(slots: nat, vacant: Set<u32>) -> nat {
    if has_vacancy(vacant) {
        slots
    } else {
        slots + 1
    }
}

/// The slots that can be used again once the value `key` addresses is removed. A slot that has been
/// vacated as often as a key can tell is retired.
pub open spec fn vacant_without<T>(live: Map<Key, T>, vacant: Set<u32>, key: Key) -> Set<u32> {
    if live.contains_key(key) && key.generation + 1 < u32::MAX {
        vacant.insert(key.index)
    } else {
        vacant
    }
}

impl<T> Arena<T> {
    spec fn resolves(self, key: Key) -> bool {
        &&& key.index < self.slots@.len()
        &&& self.slots@[key.index as int].generation == key.generation
        &&& self.slots@[key.index as int].value is Some
    }

    /// The live values by key.
    pub closed spec fn view(self) -> Map<Key, T> {
        Map::new(
            |key: Key| self.resolves(key),
            |key: Key| self.slots@[key.index as int].value->0,
        )
    }

    /// Whether `key` was ever handed out, live or not.
    pub closed spec fn issued(self, key: Key) -> bool {
        &&& key.index < self.slots@.len()
        &&& key.generation < self.slots@[key.index as int].generation || self.resolves(key)
    }

    /// The number of slots in use or vacated.
    pub closed spec fn slots_spec(self) -> nat {
        self.slots@.len()
    }

    /// The vacated slots that the next value can be stored in. One vacated as often as a key can tell is
    /// none of them.
    pub closed spec fn vacant(self) -> Set<u32> {
        Set::new(
            |i: u32|
                i < self.slots@.len() && self.slots@[i as int].value is None
                    && self.slots@[i as int].generation < u32::MAX,
        )
    }

    /// What every arena keeps: indexes fit a key, and a live slot can still be vacated.
    pub closed spec fn wf(self) -> bool {
        &&& self.slots@.len() <= u32::MAX + 1
        &&& forall|i: int|
            0 <= i < self.slots@.len() && #[trigger] self.slots@[i].value is Some
                ==> self.slots@[i].generation < u32::MAX
    }

    /// An arena without values.
    pub fn new() -> (r: Self)
        ensures
            r.wf(),
            r@ == Map::<Key, T>::empty(),
            r.slots_spec() == 0,
            r.vacant() == Set::<u32>::empty(),
            forall|key: Key| !#[trigger] r.issued(key),
    {
        let r = Arena { slots: Vec::new() };
        assert(r.vacant() =~= Set::<u32>::empty());
        assert(r@ =~= Map::<Key, T>::empty());
        r
    }

    /// The number of slots in use or vacated.
    pub fn slot_count(&self) -> (r: usize)
        ensures
            r == self.slots_spec(),
    {
        self.slots.len()
    }

    /// Store `value` under a key never handed out before, in a vacated slot where there is one, and else
    /// in a new slot.
    pub fn insert(&mut self, value: T) -> (key: Key)
        requires
            old(self).wf(),
            has_vacancy(old(self).vacant()) || old(self).slots_spec() <= u32::MAX,
        ensures
            final(self).wf(),
            final(self)@ == old(self)@.insert(key, value),
            !old(self).issued(key),
            !old(self)@.contains_key(key),
            forall|k: Key| #[trigger]
                final(self).issued(k) <==> old(self).issued(k) || k == key,
            takes_slot(old(self).slots_spec(), old(self).vacant(), key),
            final(self).slots_spec() == slots_after(old(self).slots_spec(), old(self).vacant()),
            final(self).vacant() == old(self).vacant().remove(key.index),
    {
        let mut i: usize = 0;
        while i < self.slots.len()
            invariant
                i <= self.slots@.len(),
                *self == *old(self),
                self.wf(),
                has_vacancy(self.vacant()) || self.slots_spec() <= u32::MAX,
                forall|j: u32| j < i ==> !#[trigger] self.vacant().contains(j),
            decreases self.slots@.len() - i,
        {
            if self.slots[i].value.is_none() && self.slots[i].generation < u32::MAX {
                let generation = self.slots[i].generation;
                let key = Key { index: i as u32, generation };
                assert(self.vacant().contains(key.index));
                self.slots.set(i, Slot { generation, value: Some(value) });
                assert(self@ =~= old(self)@.insert(key, value));
                assert(self.vacant() =~= old(self).vacant().remove(key.index));
                return key;
            }
            i += 1;
        }
        let key = Key { index: self.slots.len() as u32, generation: 0 };
        self.slots.push(Slot { generation: 0, value: Some(value) });
        assert(self@ =~= old(self)@.insert(key, value));
        assert(self.vacant() =~= old(self).vacant().remove(key.index));
        key
    }

    /// The value `key` addresses; a stale or unknown key addresses none.
    pub fn get(&self, key: Key) -> (r: Option<&T>)
        ensures
            match r {
                Some(value) => self@.contains_key(key) && self@[key] == *value,
                None => !self@.contains_key(key),
            },
    {
        let i = key.index as usize;
        if i < self.slots.len() && self.slots[i].generation == key.generation {
            self.slots[i].value.as_ref()
        } else {
            None
        }
    }

    /// The value `key` addresses, to change in place; a stale or unknown key addresses none.
    pub fn get_mut(&mut self, key: Key) -> (r: Option<&mut T>)
        requires
            old(self).wf(),
        ensures
            final(self).wf(),
            final(self).slots_spec() == old(self).slots_spec(),
            final(self).vacant() == old(self).vacant(),
            forall|k: Key| #[trigger] final(self).issued(k) <==> old(self).issued(k),
            match r {
                Some(value) => {
                    &&& old(self)@.contains_key(key)
                    &&& old(self)@[key] == *value
                    &&& final(self)@ == old(self)@.insert(key, *final(value))
                },
                None => !old(self)@.contains_key(key) && final(self)@ == old(self)@,
            },
    {
        let i = key.index as usize;
        if i < self.slots.len() && self.slots[i].generation == key.generation {
            match &mut self.slots[i].value {
                Some(value) => {
                    proof {
                        assert(old(self)@.insert(key, *final(value)) =~= after_borrow(self)@);
                        assert(after_borrow(self).vacant() =~= old(self).vacant());
                    }
                    Some(value)
                },
                None => None,
            }
        } else {
            None
        }
    }

    /// Remove the value `key` addresses, freeing its slot. A stale or unknown key leaves everything as it was.
    pub fn remove(&mut self, key: Key) -> (r: Option<T>)
        requires
            old(self).wf(),
        ensures
            final(self).wf(),
            final(self).slots_spec() == old(self).slots_spec(),
            final(self)@ == old(self)@.remove(key),
            final(self).vacant() == vacant_without(old(self)@, old(self).vacant(), key),
            forall|k: Key| #[trigger] final(self).issued(k) <==> old(self).issued(k),
            match r {
                Some(value) => old(self)@.contains_key(key) && old(self)@[key] == value,
                None => !old(self)@.contains_key(key),
            },
    {
        let i = key.index as usize;
        if i < self.slots.len() && self.slots[i].generation == key.generation
            && self.slots[i].value.is_some() {
            let taken = self.slots[i].value.take();
            self.slots.set(i, Slot { generation: key.generation + 1, value: None });
            assert(self@ =~= old(self)@.remove(key));
            assert(self.vacant() =~= vacant_without(old(self)@, old(self).vacant(), key));
            taken
        } else {
            assert(self@ =~= old(self)@.remove(key));
            None
        }
    }

    /// Every live key once, in slot order.
    pub fn keys(&self) -> (r: Vec<Key>)
        requires
            self.wf(),
        ensures
            lists_keys(self@, r@),
    {
        let mut keys: Vec<Key> = Vec::new();
        let mut i: usize = 0;
        while i < self.slots.len()
            invariant
                i <= self.slots@.len(),
                self.wf(),
                forall|a: int, b: int| 0 <= a < b < keys@.len() ==> keys@[a].index < keys@[b].index,
                forall|a: int| 0 <= a < keys@.len() ==> #[trigger] keys@[a].index < i,
                forall|k: Key| #[trigger]
                    keys@.contains(k) <==> self@.contains_key(k) && k.index < i,
            decreases self.slots@.len() - i,
        {
            if self.slots[i].value.is_some() {
                let key = Key { index: i as u32, generation: self.slots[i].generation };
                let ghost before = keys@;
                keys.push(key);
                proof {
                    assert forall|k: Key| #[trigger] keys@.contains(k) <==> self@.contains_key(k)
                        && k.index < i + 1 by {
                        if before.contains(k) {
                            let a = before.index_of(k);
                            assert(keys@[a] == k);
                        }
                        assert(keys@[before.len() as int] == key);
                        if k.index == i && self@.contains_key(k) {
                            assert(k == key);
                        }
                        if keys@.contains(k) {
                            let a = keys@.index_of(k);
                            if a < before.len() {
                                assert(before[a] == k);
                            }
                        }
                    }
                }
            }
            i += 1;
        }
        keys
    }
}

/// Every key that addresses a value was handed out.
pub proof fn law_live_keys_were_issued<T>(arena: Arena<T>, key: Key)
    requires
        arena@.contains_key(key),
    ensures
        arena.issued(key),
{
}

/// Every slot is in use, free for the next value, or retired: its last key was handed out, and addresses
/// nothing any more.
pub proof fn law_every_slot_is_used_free_or_retired<T>(arena: Arena<T>, index: u32)
    requires
        arena.wf(),
        index < arena.slots_spec(),
    ensures
        ({
            ||| exists|generation: u32| #[trigger] arena@.contains_key(Key { index, generation })
            ||| arena.vacant().contains(index)
            ||| arena.issued(Key { index, generation: (u32::MAX - 1) as u32 })
        }),
{
    let slot = arena.slots@[index as int];
    if slot.value is Some {
        assert(arena@.contains_key(Key { index, generation: slot.generation }));
    }
}

/// A freed slot is used again: storing and removing in turn takes one slot for as long as its keys last,
/// however many others are in use.
pub proof fn law_storing_and_removing_in_turn_takes_one_slot<T>(
    live: Map<Key, T>,
    slots: nat,
    vacant: Set<u32>,
    key: Key,
    value: T,
)
    requires
        key.generation + 1 < u32::MAX,
    ensures
        ({
            let stored = vacant.remove(key.index);
            let freed = vacant_without(live.insert(key, value), stored, key);
            &&& has_vacancy(freed)
            &&& slots_after(slots_after(slots, vacant), freed) == slots_after(slots, vacant)
        }),
{
    let freed = vacant_without(live.insert(key, value), vacant.remove(key.index), key);
    assert(freed.contains(key.index));
}

/// A key stays dead once its value is gone: whatever is stored afterwards gets a key that was never
/// handed out, so no later value answers to an old key.
pub proof fn law_an_issued_key_is_never_reissued<T>(arena: Arena<T>, later: Arena<T>, dead: Key, fresh: Key)
    requires
        arena.issued(dead),
        !arena@.contains_key(dead),
        // What one insertion guarantees of the key it returns.
        !arena.issued(fresh),
        later@.dom() =~= arena@.dom().insert(fresh),
    ensures
        dead != fresh,
        !later@.contains_key(dead),
{
}

/// A listing of keys holds every live key once and no other, in the order of their slots.
pub proof fn law_a_listing_is_complete_and_in_order<T>(live: Map<Key, T>, keys: Seq<Key>, key: Key)
    requires
        lists_keys(live, keys),
    ensures
        live.contains_key(key) ==> exists|i: int| 0 <= i < keys.len() && #[trigger] keys[i] == key,
        forall|i: int| 0 <= i < keys.len() ==> live.contains_key(#[trigger] keys[i]),
        forall|i: int, j: int|
            0 <= i < j < keys.len() ==> (#[trigger] keys[i]).index < (#[trigger] keys[j]).index,
{
    if live.contains_key(key) {
        assert(keys.contains(key));
        let i = keys.index_of(key);
        assert(keys[i] == key);
    }
    assert forall|i: int| 0 <= i < keys.len() implies live.contains_key(#[trigger] keys[i]) by {
        assert(keys.contains(keys[i]));
    }
}

/// A value takes a free slot wherever there is one, and the number of slots then stays; otherwise it takes the
/// slot after the last, and the number grows by one.
pub proof fn law_a_new_slot_is_a_last_resort(slots: nat, vacant: Set<u32>, key: Key, free: u32)
    requires
        takes_slot(slots, vacant, key),
        slots <= u32::MAX,
    ensures
        vacant.contains(free) ==> {
            &&& vacant.contains(key.index)
            &&& slots_after(slots, vacant) == slots
        },
        (forall|i: u32| !#[trigger] vacant.contains(i)) ==> {
            &&& key.index == slots
            &&& slots_after(slots, vacant) == slots + 1
        },
{
}

/// Removing a value frees its slot and no other, as long as its keys last; removing nothing frees none.
pub proof fn law_removing_frees_one_slot<T>(live: Map<Key, T>, vacant: Set<u32>, key: Key, other: u32)
    requires
        other != key.index,
    ensures
        live.contains_key(key) && key.generation + 1 < u32::MAX ==> vacant_without(
            live,
            vacant,
            key,
        ).contains(key.index),
        vacant_without(live, vacant, key).contains(other) == vacant.contains(other),
        !live.contains_key(key) ==> vacant_without(live, vacant, key) == vacant,
{
}

/// A slot that has been vacated as often as a key can tell is not freed again.
pub proof fn law_a_worn_out_slot_is_retired<T>(live: Map<Key, T>, vacant: Set<u32>, key: Key)
    requires
        key.generation + 1 >= u32::MAX,
    ensures
        vacant_without(live, vacant, key).contains(key.index) == vacant.contains(key.index),
{
}

/// A slot in use answers to one key alone, and is not free for another value.
pub proof fn law_a_slot_answers_to_one_key<T>(arena: Arena<T>, key: Key, other: Key)
    requires
        arena@.contains_key(key),
        other.index == key.index,
    ensures
        key.index < arena.slots_spec(),
        !arena.vacant().contains(key.index),
        arena@.contains_key(other) <==> other.generation == key.generation,
{
}

/// The keys of a slot are handed out one generation after the other, and the live one is the last of them.
pub proof fn law_a_slots_keys_are_issued_in_order<T>(arena: Arena<T>, key: Key, other: Key)
    requires
        arena.issued(key),
        other.index == key.index,
    ensures
        key.index < arena.slots_spec(),
        other.generation <= key.generation ==> arena.issued(other),
        arena@.contains_key(key) && other.generation > key.generation ==> !arena.issued(other),
        arena@.contains_key(key) && other.generation < key.generation ==> !arena@.contains_key(other),
{
}

/// A free slot lies among the slots there are, holds nothing, and has a key left to hand out.
pub proof fn law_a_free_slot_holds_nothing_and_has_a_key_left<T>(arena: Arena<T>, index: u32, generation: u32)
    requires
        arena.vacant().contains(index),
    ensures
        index < arena.slots_spec(),
        !arena@.contains_key(Key { index, generation }),
        !arena.issued(Key { index, generation: (u32::MAX - 1) as u32 }),
{
}

}
