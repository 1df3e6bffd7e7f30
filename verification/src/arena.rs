//! Records under identifiers that are handed out once.
//!
//! An arena gives each record the next number of a counter that only grows.
//! Removing a record empties its slot for good: the number is not given to
//! another record.
use vstd::prelude::*;

verus! {

/// Records of type `T` under identifiers `0, 1, 2, ...` in the order of
/// their creation. The model maps each identifier in use to the model of its
/// record.
///
/// The field is open so that a host can store the arena and build it again
/// from what it stored.
pub struct Arena<T> {
    /// The slot of each identifier handed out so far; empty where the record
    /// was removed.
    pub slots: Vec<Option<T>>,
}

impl<T: View> View for Arena<T> {
    type V = Map<nat, T::V>;

    closed spec fn view(&self) -> Map<nat, T::V> {
        Map::new(
            |id: nat| id < self.slots.len() && self.slots[id as int] is Some,
            |id: nat| self.slots[id as int]->0@,
        )
    }
}

impl<T: View> Arena<T> {
    /// How many identifiers were handed out so far.
    pub closed spec fn created(&self) -> nat {
        self.slots.len() as nat
    }

    /// Every record stands under an identifier that was handed out.
    pub proof fn lemma_ids_created(&self)
        ensures
            forall|id: nat| #[trigger] self@.contains_key(id) ==> id < self.created(),
            self.created() <= usize::MAX,
    {
    }

    /// An arena that has handed out no identifier.
    pub fn new() -> (arena: Arena<T>)
        ensures
            arena@ == Map::<nat, T::V>::empty(),
            arena.created() == 0,
    {
        let arena = Arena { slots: Vec::new() };
        assert(arena@ =~= Map::<nat, T::V>::empty());
        arena
    }

    /// How many identifiers were handed out so far.
    pub fn created_number(&self) -> (n: u128)
        ensures
            n == self.created(),
    {
        self.slots.len() as u128
    }

    /// Stores `record` under the next identifier and returns it.
    pub fn issue(&mut self, record: T) -> (id: u128)
        ensures
            id == old(self).created(),
            final(self).created() == old(self).created() + 1,
            final(self)@ == old(self)@.insert(id as nat, record@),
    {
        let id = self.slots.len() as u128;
        self.slots.push(Some(record));
        assert(self@ =~= old(self)@.insert(id as nat, record@));
        id
    }

    /// The record under `id`, if there is one.
    pub fn get(&self, id: u128) -> (record: Option<&T>)
        ensures
            match record {
                Some(r) => self@.contains_key(id as nat) && r@ == self@[id as nat],
                None => !self@.contains_key(id as nat),
            },
    {
        if id >= self.slots.len() as u128 {
            return None;
        }
        self.slots[id as usize].as_ref()
    }

    /// Takes the record under `id` out of the arena.
    pub fn remove(&mut self, id: u128) -> (record: Option<T>)
        ensures
            final(self).created() == old(self).created(),
            final(self)@ == old(self)@.remove(id as nat),
            match record {
                Some(r) => old(self)@.contains_key(id as nat) && r@ == old(self)@[id as nat],
                None => !old(self)@.contains_key(id as nat),
            },
    {
        if id >= self.slots.len() as u128 {
            assert(self@ =~= old(self)@.remove(id as nat));
            return None;
        }
        let record = self.slots[id as usize].take();
        assert(self@ =~= old(self)@.remove(id as nat));
        record
    }

    /// Puts `record` under `id`, an identifier that was handed out before,
    /// in place of what is there.
    pub fn put(&mut self, id: u128, record: T)
        requires
            id < old(self).created(),
        ensures
            final(self).created() == old(self).created(),
            final(self)@ == old(self)@.insert(id as nat, record@),
    {
        self.slots[id as usize] = Some(record);
        assert(self@ =~= old(self)@.insert(id as nat, record@));
    }
}

} // verus!
