//! A map from slot names to values, kept as a list without repeated names.

use vstd::prelude::*;
use crate::text::str_eq;

verus! {

/// The slot names of a sequence, each taken by its characters.
pub open spec fn slot_names(slots: Seq<&'static str>) -> Seq<Seq<char>> {
    slots.map_values(|s: &'static str| s@)
}

/// Values stored under slot names, at most one for each name.
pub struct SlotMap<V> {
    slots: Vec<&'static str>,
    values: Vec<V>,
}

impl<V> View for SlotMap<V> {
    type V = Map<Seq<char>, V>;

    closed spec fn view(&self) -> Map<Seq<char>, V> {
        Map::new(
            |k: Seq<char>| slot_names(self.slots@).contains(k),
            |k: Seq<char>| self.values@[slot_names(self.slots@).index_of(k)],
        )
    }
}

impl<V> SlotMap<V> {
    #[verifier::type_invariant]
    spec fn inv(&self) -> bool {
        &&& self.slots@.len() == self.values@.len()
        &&& slot_names(self.slots@).no_duplicates()
    }

    /// In a well-formed map a name stands at one place only.
    proof fn lemma_place(&self, i: int)
        requires
            self.inv(),
            0 <= i < self.slots@.len(),
        ensures
            slot_names(self.slots@).contains(self.slots@[i]@),
            slot_names(self.slots@).index_of(self.slots@[i]@) == i,
            self@.contains_key(self.slots@[i]@),
            self@[self.slots@[i]@] == self.values@[i],
    {
        let names = slot_names(self.slots@);
        assert(names[i] == self.slots@[i]@);
    }

    /// The domain of a well-formed map is finite and as large as the list.
    proof fn lemma_dom(&self)
        requires
            self.inv(),
        ensures
            self@.dom() == slot_names(self.slots@).to_set(),
            self@.dom().finite(),
            self@.dom().len() == self.slots@.len(),
    {
        let names = slot_names(self.slots@);
        assert(self@.dom() =~= names.to_set());
        names.unique_seq_to_set();
        vstd::seq_lib::seq_to_set_is_finite(names);
    }

    /// An empty map.
    pub fn new() -> (r: Self)
        ensures
            r@ == Map::<Seq<char>, V>::empty(),
    {
        let r = SlotMap { slots: Vec::new(), values: Vec::new() };
        assert(r@ =~= Map::<Seq<char>, V>::empty());
        r
    }

    /// Moves the two lists out and leaves the map empty.
    fn take_lists(&mut self) -> (r: (Vec<&'static str>, Vec<V>))
        ensures
            r.0 == old(self).slots,
            r.1 == old(self).values,
    {
        let mut taken = SlotMap::new();
        core::mem::swap(self, &mut taken);
        let SlotMap { slots, values } = taken;
        (slots, values)
    }

    /// The place of `slot` in the list, if it is there.
    fn position(&self, slot: &str) -> (r: Option<usize>)
        ensures
            match r {
                Some(i) => i < self.slots@.len() && self.slots@[i as int]@ == slot@,
                None => !self@.contains_key(slot@),
            },
    {
        let mut i: usize = 0;
        while i < self.slots.len()
            invariant
                i <= self.slots@.len(),
                forall|j: int| 0 <= j < i ==> self.slots@[j]@ != slot@,
            decreases self.slots@.len() - i,
        {
            if str_eq(self.slots[i], slot) {
                return Some(i);
            }
            i += 1;
        }
        None
    }

    /// The number of slots that hold a value.
    pub fn len(&self) -> (r: usize)
        ensures
            r == self@.len(),
            self@.dom().finite(),
    {
        proof {
            use_type_invariant(self);
            self.lemma_dom();
        }
        self.slots.len()
    }

    /// Whether a value is stored under `slot`.
    pub fn contains_key(&self, slot: &str) -> (r: bool)
        ensures
            r == self@.contains_key(slot@),
    {
        proof {
            use_type_invariant(self);
        }
        match self.position(slot) {
            Some(i) => {
                proof {
                    self.lemma_place(i as int);
                }
                true
            },
            None => false,
        }
    }

    /// The value stored under `slot`, if there is one.
    pub fn get(&self, slot: &str) -> (r: Option<&V>)
        ensures
            match r {
                Some(v) => self@.contains_key(slot@) && *v == self@[slot@],
                None => !self@.contains_key(slot@),
            },
    {
        proof {
            use_type_invariant(self);
        }
        match self.position(slot) {
            Some(i) => {
                proof {
                    self.lemma_place(i as int);
                }
                Some(&self.values[i])
            },
            None => None,
        }
    }

    /// Takes the value stored under `slot` out of the map, if there is one.
    pub fn remove(&mut self, slot: &str) -> (r: Option<V>)
        ensures
            final(self)@ == old(self)@.remove(slot@),
            match r {
                Some(v) => old(self)@.contains_key(slot@) && v == old(self)@[slot@],
                None => !old(self)@.contains_key(slot@),
            },
    {
        proof {
            use_type_invariant(&*self);
        }
        match self.position(slot) {
            Some(i) => {
                proof {
                    self.lemma_place(i as int);
                }
                let ghost before = *self;
                let (mut slots, mut values) = self.take_lists();
                slots.remove(i);
                let v = values.remove(i);
                proof {
                    let names = slot_names(before.slots@);
                    let left = slot_names(slots@);
                    assert(left =~= names.remove(i as int));
                    assert forall|k: Seq<char>| #[trigger] left.contains(k) <==> (names.contains(k) && k != slot@) by {
                        if left.contains(k) {
                            let j = left.index_of(k);
                            if j < i {
                                assert(names[j] == k);
                            } else {
                                assert(names[j + 1] == k);
                            }
                        }
                        if names.contains(k) && k != slot@ {
                            let j = names.index_of(k);
                            if j < i {
                                assert(left[j] == k);
                            } else {
                                assert(left[j - 1] == k);
                            }
                        }
                    }
                    assert(left.no_duplicates());
                    assert forall|k: Seq<char>| left.contains(k) implies #[trigger] values@[left.index_of(k)] == before.values@[names.index_of(k)] by {
                        let j = left.index_of(k);
                        if j < i {
                            assert(names[j] == k);
                        } else {
                            assert(names[j + 1] == k);
                        }
                    }
                }
                *self = SlotMap { slots, values };
                assert(self@ =~= before@.remove(slot@));
                Some(v)
            },
            None => {
                assert(self@ =~= old(self)@.remove(slot@));
                None
            },
        }
    }

    /// Stores `value` under `slot` and hands back the value that was there
    /// before, if there was one.
    pub fn insert(&mut self, slot: &'static str, value: V) -> (r: Option<V>)
        ensures
            final(self)@ == old(self)@.insert(slot@, value),
            match r {
                Some(v) => old(self)@.contains_key(slot@) && v == old(self)@[slot@],
                None => !old(self)@.contains_key(slot@),
            },
    {
        let r = self.remove(slot);
        proof {
            use_type_invariant(&*self);
        }
        let ghost before = *self;
        let (mut slots, mut values) = self.take_lists();
        slots.push(slot);
        values.push(value);
        proof {
            let names = slot_names(before.slots@);
            let grown = slot_names(slots@);
            let n = names.len() as int;
            assert(grown =~= names.push(slot@));
            assert(!before@.contains_key(slot@));
            assert(!names.contains(slot@));
            assert(grown.no_duplicates());
            assert forall|k: Seq<char>| #[trigger] grown.contains(k) <==> (names.contains(k) || k == slot@) by {
                if grown.contains(k) {
                    let j = grown.index_of(k);
                    if j < n {
                        assert(names[j] == k);
                    }
                }
                if names.contains(k) {
                    let j = names.index_of(k);
                    assert(grown[j] == k);
                }
                if k == slot@ {
                    assert(grown[n] == k);
                }
            }
            assert forall|k: Seq<char>| names.contains(k) implies #[trigger] values@[grown.index_of(k)] == before.values@[names.index_of(k)] by {
                let j = names.index_of(k);
                assert(grown[j] == k);
            }
            assert(grown[n] == slot@);
            assert(values@[grown.index_of(slot@)] == value);
        }
        *self = SlotMap { slots, values };
        proof {
            assert(self@ =~= before@.insert(slot@, value));
            assert(before@.insert(slot@, value) =~= old(self)@.insert(slot@, value));
        }
        r
    }
}

} // verus!
