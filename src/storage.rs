use vstd::prelude::*;

verus! {

/// The values of one component type, addressed by entity index.
///
/// Slot `i` holds `Some(v)` when the entity with index `i` has the value
/// `v`. The indices that hold a value form the storage's presence index.
pub struct ComponentStorage<V> {
    slots: Vec<Option<V>>,
}

impl<V> View for ComponentStorage<V> {
    type V = Map<usize, V>;

    closed spec fn view(&self) -> Map<usize, V> {
        Map::new(
            |i: usize| i < self.slots@.len() && self.slots@[i as int] is Some,
            |i: usize| self.slots@[i as int]->Some_0,
        )
    }
}

/// Writing a value into a held slot inserts it into the view.
broadcast proof fn lemma_slot_write<V>(a: ComponentStorage<V>, b: ComponentStorage<V>, i: usize, v: V)
    requires
        i < a.slots@.len(),
        b.slots@ == a.slots@.update(i as int, Some(v)),
    ensures
        #![trigger b@, a@.insert(i, v)]
        b@ == a@.insert(i, v),
{
    assert(b@ =~= a@.insert(i, v));
}

impl<V> ComponentStorage<V> {
    pub fn new() -> (s: ComponentStorage<V>)
        ensures
            s@ == Map::<usize, V>::empty(),
    {
        let s = ComponentStorage { slots: Vec::new() };
        assert(s@ =~= Map::<usize, V>::empty());
        s
    }

    pub fn contains(&self, index: usize) -> (r: bool)
        ensures
            r == self@.contains_key(index),
    {
        index < self.slots.len() && self.slots[index].is_some()
    }

    /// Stores `value` at `index`, replacing any value already there.
    pub fn insert(&mut self, index: usize, value: V)
        requires
            index < usize::MAX,
        ensures
            final(self)@ == old(self)@.insert(index, value),
    {
        while self.slots.len() <= index
            invariant
                index < usize::MAX,
                self@ == old(self)@,
            decreases index + 1 - self.slots.len(),
        {
            let ghost before = self.slots@;
            self.slots.push(None);
            assert(self@ =~= old(self)@) by {
                assert forall|i: usize| #[trigger] self@.contains_key(i) <==> old(
                    self,
                )@.contains_key(i) by {
                    if i < before.len() {
                        assert(self.slots@[i as int] == before[i as int]);
                    }
                }
            }
        }
        let ghost before = self.slots@;
        self.slots.set(index, Some(value));
        assert(self@ =~= old(self)@.insert(index, value)) by {
            assert forall|i: usize| #[trigger] self@.contains_key(i) <==> old(self)@.insert(
                index,
                value,
            ).contains_key(i) by {
                if i < before.len() && i != index {
                    assert(self.slots@[i as int] == before[i as int]);
                }
            }
        }
    }

    /// Takes the value at `index` out of the storage, if there is one.
    pub fn remove(&mut self, index: usize) -> (r: Option<V>)
        ensures
            r == (if old(self)@.contains_key(index) {
                Some(old(self)@[index])
            } else {
                None::<V>
            }),
            final(self)@ == old(self)@.remove(index),
    {
        if index < self.slots.len() {
            let ghost before = self.slots@;
            let taken = self.slots[index].take();
            assert(self@ =~= old(self)@.remove(index)) by {
                assert forall|i: usize| #[trigger] self@.contains_key(i) <==> old(
                    self,
                )@.remove(index).contains_key(i) by {
                    if i < before.len() && i != index {
                        assert(self.slots@[i as int] == before[i as int]);
                    }
                }
            }
            taken
        } else {
            assert(self@ =~= old(self)@.remove(index));
            None
        }
    }

    pub fn get(&self, index: usize) -> (r: Option<&V>)
        ensures
            match r {
                Some(v) => self@.contains_key(index) && *v == self@[index],
                None => !self@.contains_key(index),
            },
    {
        if index < self.slots.len() {
            self.slots[index].as_ref()
        } else {
            None
        }
    }

    pub fn get_mut(&mut self, index: usize) -> (r: Option<&mut V>)
        ensures
            r is Some ==> old(self)@.contains_key(index),
            r is Some ==> *r->Some_0 == old(self)@[index],
            r is Some ==> final(self)@ == old(self)@.insert(index, *final(r->Some_0)),
            r is None ==> !old(self)@.contains_key(index) && *final(self) == *old(self),
    {
        broadcast use lemma_slot_write;

        if index < self.slots.len() && self.slots[index].is_some() {
            self.slots[index].as_mut()
        } else {
            None
        }
    }

    /// The least index at or after `start` that holds a value.
    pub fn next_entry(&self, start: usize) -> (r: Option<usize>)
        ensures
            match r {
                Some(k) => {
                    &&& start <= k
                    &&& self@.contains_key(k)
                    &&& forall|j: usize| start <= j < k ==> !#[trigger] self@.contains_key(j)
                },
                None => forall|j: usize| start <= j ==> !#[trigger] self@.contains_key(j),
            },
    {
        let mut i = start;
        while i < self.slots.len()
            invariant
                start <= i,
                forall|j: usize| start <= j < i ==> !#[trigger] self@.contains_key(j),
            decreases self.slots.len() - i,
        {
            if self.slots[i].is_some() {
                return Some(i);
            }
            i = i + 1;
        }
        None
    }

    /// The presence index: every index that holds a value, ascending.
    pub fn presence_index(&self) -> (r: Vec<usize>)
        ensures
            forall|j: int, k: int| 0 <= j < k < r@.len() ==> r@[j] < r@[k],
            forall|i: usize| self@.contains_key(i) <==> #[trigger] r@.contains(i),
    {
        let mut r: Vec<usize> = Vec::new();
        let mut i: usize = 0;
        while i < self.slots.len()
            invariant
                i <= self.slots@.len(),
                forall|j: int, k: int| 0 <= j < k < r@.len() ==> r@[j] < r@[k],
                forall|j: int| 0 <= j < r@.len() ==> r@[j] < i,
                forall|x: usize| x < i ==> (self@.contains_key(x) <==> #[trigger] r@.contains(x)),
                forall|x: usize| #[trigger] r@.contains(x) ==> x < i,
            decreases self.slots.len() - i,
        {
            let ghost before = r@;
            if self.slots[i].is_some() {
                r.push(i);
                assert forall|x: usize| #[trigger] r@.contains(x) <==> before.contains(x) || x
                    == i by {
                    if before.contains(x) {
                        let j = choose|j: int| 0 <= j < before.len() && before[j] == x;
                        assert(r@[j] == x);
                    }
                    if x == i {
                        assert(r@[before.len() as int] == x);
                    }
                }
            }
            assert(self@.contains_key(i) <==> self.slots@[i as int] is Some);
            i = i + 1;
        }
        r
    }
}

} // verus!
