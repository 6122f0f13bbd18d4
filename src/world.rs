use vstd::prelude::*;

use crate::entity::{Entity, EntityAllocator};
use crate::query::{ComponentId, Query, held_by_all, kinds_in_range, matching_indices};
use crate::storage::ComponentStorage;

verus! {

/// Why a world operation was refused.
#[derive(Clone, Copy, Debug, PartialEq, Eq, Structural)]
pub enum EcsError {
    /// The component type was never registered with this world.
    ComponentNotRegistered,
    /// The entity handle is not live: it was removed, or never allocated.
    EntityDead,
    /// A query session already holds one of the requested component types.
    RecursiveBorrowConflict,
    /// A query named the same component type twice.
    DuplicateComponentInQuery,
}

/// Entities, and one storage per registered component type.
///
/// Every component value has the type `V` (an enum, where the components
/// carry different data); a component type is known by the `ComponentId`
/// that `register_component` handed out for it.
pub struct World<V> {
    allocator: EntityAllocator,
    stores: Vec<ComponentStorage<V>>,
    borrowed: Vec<bool>,
}

/// A live entity of a world, borrowed from it so that components can be
/// attached in a chain.
pub struct EntityEntry<'a, V> {
    pub world: &'a mut World<V>,
    pub handle: Entity,
}

impl<V> World<V> {
    pub closed spec fn allocator(self) -> EntityAllocator {
        self.allocator
    }

    pub closed spec fn stores(self) -> Seq<ComponentStorage<V>> {
        self.stores@
    }

    /// For each registered component type, whether an open query session
    /// holds its borrow permit.
    pub closed spec fn borrowed(self) -> Seq<bool> {
        self.borrowed@
    }

    pub open spec fn is_registered(self, c: ComponentId) -> bool {
        c.0 < self.stores().len()
    }

    pub open spec fn is_alive(self, e: Entity) -> bool {
        self.allocator().is_alive_spec(e)
    }

    /// The values of component type `c`, by entity index.
    pub open spec fn store(self, c: ComponentId) -> Map<usize, V> {
        self.stores()[c.0 as int]@
    }

    /// Whether the live entity `e` has a value of the registered type `c`.
    pub open spec fn has(self, e: Entity, c: ComponentId) -> bool {
        &&& self.is_alive(e)
        &&& self.is_registered(c)
        &&& self.store(c).contains_key(e.index)
    }

    /// The value of type `c` that `e` has, where `self.has(e, c)`.
    pub open spec fn value(self, e: Entity, c: ComponentId) -> V {
        self.store(c)[e.index]
    }

    /// Whether `e` is live and has a value of every type in `kinds`.
    pub open spec fn matches(self, kinds: Seq<ComponentId>, e: Entity) -> bool {
        self.is_alive(e) && held_by_all(self.stores(), kinds, e.index)
    }

    pub open spec fn wf(self) -> bool {
        &&& self.allocator().wf()
        &&& self.borrowed().len() == self.stores().len()
        &&& forall|k: int, i: usize|
            0 <= k < self.stores().len() && #[trigger] self.stores()[k]@.contains_key(i) ==> {
                &&& i < self.allocator().slots()
                &&& self.allocator().live()[i as int]
            }
    }

    /// Why a query session over `kinds` would be refused, if it would.
    pub open spec fn query_error(self, kinds: Seq<ComponentId>) -> Option<EcsError> {
        if exists|j: int| 0 <= j < kinds.len() && !self.is_registered(#[trigger] kinds[j]) {
            Some(EcsError::ComponentNotRegistered)
        } else if exists|j: int, k: int| 0 <= j < k < kinds.len() && kinds[j] == kinds[k] {
            Some(EcsError::DuplicateComponentInQuery)
        } else if exists|j: int|
            0 <= j < kinds.len() && self.borrowed()[(#[trigger] kinds[j]).0 as int] {
            Some(EcsError::RecursiveBorrowConflict)
        } else {
            None
        }
    }

    /// The permits after a session over `kinds` takes them.
    pub open spec fn taken(borrowed: Seq<bool>, kinds: Seq<ComponentId>) -> Seq<bool> {
        Seq::new(
            borrowed.len(),
            |k: int| borrowed[k] || exists|m: int| 0 <= m < kinds.len() && kinds[m].0 == k,
        )
    }

    /// The permits after a session over `kinds` gives them back.
    pub open spec fn released(borrowed: Seq<bool>, kinds: Seq<ComponentId>) -> Seq<bool> {
        Seq::new(
            borrowed.len(),
            |k: int| borrowed[k] && !exists|m: int| 0 <= m < kinds.len() && kinds[m].0 == k,
        )
    }

    /// Whether `q` lists exactly the entities of this world that match
    /// `kinds`, each once, ascending by index.
    pub open spec fn lists_matches(self, kinds: Seq<ComponentId>, q: Query) -> bool {
        &&& q.kinds() == kinds
        &&& forall|j: int| 0 <= j < q.matches().len() ==> self.matches(kinds, #[trigger] q.matches()[j])
        &&& forall|j: int, k: int|
            0 <= j < k < q.matches().len() ==> q.matches()[j].index < q.matches()[k].index
        &&& forall|e: Entity| #[trigger]
            self.matches(kinds, e) ==> q.matches().contains(e)
    }

    pub fn new() -> (w: World<V>)
        ensures
            w.wf(),
            w.stores().len() == 0,
            w.allocator().slots() == 0,
            w.allocator().free_list().len() == 0,
            forall|e: Entity| !#[trigger] w.is_alive(e),
    {
        World { allocator: EntityAllocator::new(), stores: Vec::new(), borrowed: Vec::new() }
    }

    /// Adds an empty storage for a new component type and returns its id.
    pub fn register_component(&mut self) -> (c: ComponentId)
        requires
            old(self).wf(),
        ensures
            final(self).wf(),
            c.0 == old(self).stores().len(),
            final(self).stores().len() == old(self).stores().len() + 1,
            final(self).store(c) == Map::<usize, V>::empty(),
            forall|k: int|
                0 <= k < old(self).stores().len() ==> #[trigger] final(self).stores()[k] == old(
                    self,
                ).stores()[k],
            final(self).borrowed() == old(self).borrowed().push(false),
            final(self).allocator() == old(self).allocator(),
    {
        let c = ComponentId(self.stores.len());
        self.stores.push(ComponentStorage::new());
        self.borrowed.push(false);
        proof {
            assert forall|k: int, i: usize|
                0 <= k < self.stores@.len() && #[trigger] self.stores()[k]@.contains_key(i)
                implies i < self.allocator.slots() && self.allocator.live()[i as int] by {
                assert(k < old(self).stores@.len());
                assert(old(self).stores@[k] == self.stores@[k]);
            }
        }
        c
    }

    /// An entry for `e` if it is live.
    pub fn entity(&mut self, e: Entity) -> (r: Option<EntityEntry<'_, V>>)
        requires
            old(self).wf(),
        ensures
            match r {
                Some(entry) => {
                    &&& old(self).is_alive(e)
                    &&& entry.handle == e
                    &&& *entry.world == *old(self)
                    &&& *final(self) == *final(entry.world)
                },
                None => !old(self).is_alive(e) && *final(self) == *old(self),
            },
    {
        if self.allocator.is_alive(e) {
            Some(EntityEntry { world: self, handle: e })
        } else {
            None
        }
    }

    /// Allocates an entity, recycling a freed slot when there is one, and
    /// returns an entry for it. The new entity has no components.
    pub fn add_entity(&mut self) -> (r: EntityEntry<'_, V>)
        requires
            old(self).wf(),
        ensures
            r.world.wf(),
            r.world.is_alive(r.handle),
            !old(self).is_alive(r.handle),
            forall|x: Entity| #[trigger]
                r.world.is_alive(x) <==> old(self).is_alive(x) || x == r.handle,
            old(self).allocator().free_list().len() > 0 ==> {
                let i = old(self).allocator().free_list().last();
                &&& r.handle.index == i
                &&& r.handle.generation == old(self).allocator().generations()[i as int] + 1
                &&& r.world.allocator().free_list() == old(self).allocator().free_list().drop_last()
            },
            old(self).allocator().free_list().len() == 0 ==> {
                &&& r.handle.index == old(self).allocator().slots()
                &&& r.handle.generation == 0
                &&& r.world.allocator().free_list() == old(self).allocator().free_list()
            },
            r.world.stores() == old(self).stores(),
            r.world.borrowed() == old(self).borrowed(),
            forall|c: ComponentId| !#[trigger] r.world.has(r.handle, c),
            *final(self) == *final(r.world),
    {
        let e = self.allocator.allocate();
        proof {
            assert forall|k: int, i: usize|
                0 <= k < self.stores@.len() && #[trigger] self.stores()[k]@.contains_key(i)
                implies i < self.allocator.slots() && self.allocator.live()[i as int] by {
                assert(old(self).allocator.live()[i as int]);
            }
            assert forall|c: ComponentId| !#[trigger] self.has(e, c) by {
                if self.is_registered(c) && self.store(c).contains_key(e.index) {
                    assert(old(self).allocator.live()[e.index as int]);
                }
            }
        }
        EntityEntry { world: self, handle: e }
    }

    /// Removes a live entity: takes its values out of every storage and
    /// frees its slot. Does nothing to a handle that is not live.
    pub fn remove_entity(&mut self, e: Entity)
        requires
            old(self).wf(),
        ensures
            final(self).wf(),
            !old(self).is_alive(e) ==> *final(self) == *old(self),
            old(self).is_alive(e) ==> {
                &&& forall|x: Entity| #[trigger]
                    final(self).is_alive(x) <==> old(self).is_alive(x) && x != e
                &&& final(self).allocator().generations() == old(self).allocator().generations()
                &&& e.generation < u32::MAX ==> final(self).allocator().free_list() == old(
                    self,
                ).allocator().free_list().push(e.index)
                &&& e.generation == u32::MAX ==> final(self).allocator().free_list() == old(
                    self,
                ).allocator().free_list()
                &&& final(self).stores().len() == old(self).stores().len()
                &&& forall|c: ComponentId|
                    old(self).is_registered(c) ==> #[trigger] final(self).store(c) == old(
                        self,
                    ).store(c).remove(e.index)
                &&& final(self).borrowed() == old(self).borrowed()
            },
    {
        if !self.allocator.is_alive(e) {
            return;
        }
        let mut k: usize = 0;
        while k < self.stores.len()
            invariant
                old(self).wf(),
                old(self).is_alive(e),
                self.allocator == old(self).allocator,
                self.borrowed == old(self).borrowed,
                self.stores@.len() == old(self).stores@.len(),
                k <= self.stores@.len(),
                forall|m: int|
                    0 <= m < k ==> (#[trigger] self.stores@[m])@ == old(self).stores@[m]@.remove(
                        e.index,
                    ),
                forall|m: int| k <= m < self.stores@.len() ==> #[trigger] self.stores@[m] == old(
                    self,
                ).stores@[m],
            decreases self.stores@.len() - k,
        {
            self.stores[k].remove(e.index);
            k = k + 1;
        }
        let freed = self.allocator.free(e);
        proof {
            assert forall|k: int, i: usize|
                0 <= k < self.stores@.len() && #[trigger] self.stores()[k]@.contains_key(i)
                implies i < self.allocator.slots() && self.allocator.live()[i as int] by {
                assert(old(self).stores@[k]@.contains_key(i));
                assert(i != e.index);
            }
            assert forall|c: ComponentId| old(self).is_registered(c) implies #[trigger] self.store(
                c,
            ) == old(self).store(c).remove(e.index) by {
                assert(self.stores@[c.0 as int]@ == old(self).stores@[c.0 as int]@.remove(e.index));
            }
        }
    }

    /// The value of type `c` that `e` has; `None` when `e` is not live, `c`
    /// is not registered or `e` has no such value.
    pub fn get_component(&self, e: Entity, c: ComponentId) -> (r: Option<&V>)
        requires
            self.wf(),
        ensures
            match r {
                Some(v) => self.has(e, c) && *v == self.value(e, c),
                None => !self.has(e, c),
            },
    {
        if !self.allocator.is_alive(e) || c.0 >= self.stores.len() {
            return None;
        }
        self.stores[c.0].get(e.index)
    }

    /// Gives `e` the value `v` of type `c`, replacing any it had.
    pub fn insert_component(&mut self, e: Entity, c: ComponentId, v: V) -> (r: Result<(), EcsError>)
        requires
            old(self).wf(),
        ensures
            final(self).wf(),
            !old(self).is_alive(e) ==> r == Err::<(), EcsError>(EcsError::EntityDead),
            old(self).is_alive(e) && !old(self).is_registered(c) ==> r == Err::<(), EcsError>(
                EcsError::ComponentNotRegistered,
            ),
            r is Err ==> *final(self) == *old(self),
            old(self).is_alive(e) && old(self).is_registered(c) ==> {
                &&& r is Ok
                &&& final(self).stores().len() == old(self).stores().len()
                &&& final(self).store(c) == old(self).store(c).insert(e.index, v)
                &&& forall|k: int|
                    0 <= k < old(self).stores().len() && k != c.0
                        ==> #[trigger] final(self).stores()[k] == old(self).stores()[k]
                &&& final(self).allocator() == old(self).allocator()
                &&& final(self).borrowed() == old(self).borrowed()
            },
    {
        if !self.allocator.is_alive(e) {
            return Err(EcsError::EntityDead);
        }
        if c.0 >= self.stores.len() {
            return Err(EcsError::ComponentNotRegistered);
        }
        self.stores[c.0].insert(e.index, v);
        proof {
            assert forall|k: int, i: usize|
                0 <= k < self.stores@.len() && #[trigger] self.stores()[k]@.contains_key(i)
                implies i < self.allocator.slots() && self.allocator.live()[i as int] by {
                if k != c.0 {
                    assert(self.stores@[k] == old(self).stores@[k]);
                } else if i != e.index {
                    assert(old(self).stores@[k]@.contains_key(i));
                }
            }
        }
        Ok(())
    }

    /// Takes the value of type `c` out of `e`, returning it, or `None` when
    /// `e` had none.
    pub fn remove_component(&mut self, e: Entity, c: ComponentId) -> (r: Result<Option<V>, EcsError>)
        requires
            old(self).wf(),
        ensures
            final(self).wf(),
            !old(self).is_alive(e) ==> r == Err::<Option<V>, EcsError>(EcsError::EntityDead),
            old(self).is_alive(e) && !old(self).is_registered(c) ==> r == Err::<
                Option<V>,
                EcsError,
            >(EcsError::ComponentNotRegistered),
            r is Err ==> *final(self) == *old(self),
            old(self).is_alive(e) && old(self).is_registered(c) ==> {
                &&& r == Ok::<Option<V>, EcsError>(
                    if old(self).has(e, c) {
                        Some(old(self).value(e, c))
                    } else {
                        None
                    },
                )
                &&& final(self).stores().len() == old(self).stores().len()
                &&& final(self).store(c) == old(self).store(c).remove(e.index)
                &&& forall|k: int|
                    0 <= k < old(self).stores().len() && k != c.0
                        ==> #[trigger] final(self).stores()[k] == old(self).stores()[k]
                &&& final(self).allocator() == old(self).allocator()
                &&& final(self).borrowed() == old(self).borrowed()
            },
    {
        if !self.allocator.is_alive(e) {
            return Err(EcsError::EntityDead);
        }
        if c.0 >= self.stores.len() {
            return Err(EcsError::ComponentNotRegistered);
        }
        let taken = self.stores[c.0].remove(e.index);
        proof {
            assert forall|k: int, i: usize|
                0 <= k < self.stores@.len() && #[trigger] self.stores()[k]@.contains_key(i)
                implies i < self.allocator.slots() && self.allocator.live()[i as int] by {
                if k != c.0 {
                    assert(self.stores@[k] == old(self).stores@[k]);
                } else {
                    assert(old(self).stores@[k]@.contains_key(i));
                }
            }
        }
        Ok(taken)
    }
}

impl<V> World<V> {
    /// Begins a query session over the distinct registered types `kinds`:
    /// lists, ascending by index, every live entity that has a value of each
    /// of them, and takes their borrow permits until `finish`.
    pub fn iter(&mut self, kinds: &Vec<ComponentId>) -> (r: Result<Query, EcsError>)
        requires
            old(self).wf(),
            kinds@.len() > 0,
        ensures
            final(self).wf(),
            match r {
                Err(err) => {
                    &&& old(self).query_error(kinds@) == Some(err)
                    &&& *final(self) == *old(self)
                },
                Ok(q) => {
                    &&& old(self).query_error(kinds@) is None
                    &&& old(self).lists_matches(kinds@, q)
                    &&& final(self).allocator() == old(self).allocator()
                    &&& final(self).stores() == old(self).stores()
                    &&& final(self).borrowed() == Self::taken(old(self).borrowed(), kinds@)
                },
            },
    {
        let mut j: usize = 0;
        while j < kinds.len()
            invariant
                j <= kinds@.len(),
                *self == *old(self),
                self.wf(),
                forall|m: int| 0 <= m < j ==> self.is_registered(#[trigger] kinds@[m]),
            decreases kinds@.len() - j,
        {
            if kinds[j].0 >= self.stores.len() {
                return Err(EcsError::ComponentNotRegistered);
            }
            j = j + 1;
        }
        let mut j: usize = 0;
        while j < kinds.len()
            invariant
                j <= kinds@.len(),
                *self == *old(self),
                self.wf(),
                forall|m: int| 0 <= m < kinds@.len() ==> self.is_registered(#[trigger] kinds@[m]),
                forall|m: int, n: int| 0 <= m < n < kinds@.len() && m < j ==> kinds@[m] != kinds@[n],
            decreases kinds@.len() - j,
        {
            let mut k: usize = j + 1;
            while k < kinds.len()
                invariant
                    j < k <= kinds@.len(),
                    *self == *old(self),
                    self.wf(),
                    forall|m: int| 0 <= m < kinds@.len() ==> self.is_registered(#[trigger] kinds@[m]),
                    forall|m: int, n: int|
                        0 <= m < n < kinds@.len() && m < j ==> kinds@[m] != kinds@[n],
                    forall|n: int| j < n < k ==> kinds@[j as int] != kinds@[n],
                decreases kinds@.len() - k,
            {
                if kinds[j] == kinds[k] {
                    return Err(EcsError::DuplicateComponentInQuery);
                }
                k = k + 1;
            }
            j = j + 1;
        }
        let mut j: usize = 0;
        while j < kinds.len()
            invariant
                j <= kinds@.len(),
                *self == *old(self),
                self.wf(),
                forall|m: int| 0 <= m < kinds@.len() ==> self.is_registered(#[trigger] kinds@[m]),
                forall|m: int, n: int| 0 <= m < n < kinds@.len() ==> kinds@[m] != kinds@[n],
                forall|m: int| 0 <= m < j ==> !self.borrowed()[(#[trigger] kinds@[m]).0 as int],
            decreases kinds@.len() - j,
        {
            if self.borrowed[kinds[j].0] {
                return Err(EcsError::RecursiveBorrowConflict);
            }
            j = j + 1;
        }
        assert(kinds_in_range(self.stores@, kinds@));
        let indices = matching_indices(&self.stores, kinds);
        assert forall|t: int| 0 <= t < indices@.len() implies held_by_all(
            self.stores(),
            kinds@,
            #[trigger] indices@[t],
        ) by {
            assert(indices@.contains(indices@[t]));
        }
        let mut matches: Vec<Entity> = Vec::new();
        let mut p: usize = 0;
        while p < indices.len()
            invariant
                self.wf(),
                *self == *old(self),
                kinds@.len() > 0,
                forall|m: int| 0 <= m < kinds@.len() ==> self.is_registered(#[trigger] kinds@[m]),
                p <= indices@.len(),
                matches@.len() == p,
                forall|t: int| 0 <= t < indices@.len() ==> held_by_all(
                    self.stores(),
                    kinds@,
                    #[trigger] indices@[t],
                ),
                forall|t: int|
                    0 <= t < p ==> #[trigger] matches@[t] == (Entity {
                        index: indices@[t],
                        generation: self.allocator().generations()[indices@[t] as int],
                    }),
                forall|t: int| 0 <= t < p ==> self.is_alive(#[trigger] matches@[t]),
            decreases indices@.len() - p,
        {
            let i = indices[p];
            assert(held_by_all(self.stores(), kinds@, i));
            assert(self.is_registered(kinds@[0]));
            assert(self.stores()[kinds@[0].0 as int]@.contains_key(i));
            match self.allocator.live_at(i) {
                Some(e) => {
                    matches.push(e);
                },
                None => {
                    assert(false);
                },
            }
            p = p + 1;
        }
        proof {
            assert forall|x: Entity| #[trigger] self.matches(kinds@, x) implies matches@.contains(
                x,
            ) by {
                assert(indices@.contains(x.index));
                let t = choose|t: int| 0 <= t < indices@.len() && indices@[t] == x.index;
                assert(matches@[t] == x);
            }
        }
        let ghost before = self.borrowed@;
        let mut j: usize = 0;
        while j < kinds.len()
            invariant
                j <= kinds@.len(),
                self.allocator == old(self).allocator,
                self.stores == old(self).stores,
                before.len() == self.stores@.len(),
                self.borrowed@.len() == before.len(),
                forall|m: int| 0 <= m < kinds@.len() ==> self.is_registered(#[trigger] kinds@[m]),
                forall|k: int|
                    0 <= k < before.len() ==> #[trigger] self.borrowed@[k] == (before[k] || exists|
                        m: int,
                    | 0 <= m < j && kinds@[m].0 == k),
            decreases kinds@.len() - j,
        {
            assert(self.is_registered(kinds@[j as int]));
            self.borrowed.set(kinds[j].0, true);
            proof {
                assert forall|k: int| 0 <= k < before.len() implies #[trigger] self.borrowed@[k] == (
                before[k] || exists|m: int| 0 <= m < j + 1 && kinds@[m].0 == k) by {
                    if k == kinds@[j as int].0 {
                        assert(kinds@[j as int].0 == k);
                    }
                }
            }
            j = j + 1;
        }
        assert(self.borrowed@ =~= Self::taken(before, kinds@));
        Ok(Query::from_parts(kinds.clone(), matches))
    }
}

impl<V> World<V> {
    /// The value of the `slot`-th type of session `q` that its `pos`-th
    /// entity has, for writing in place. `None` when that entity no longer
    /// has it, or when the type's permit is not held, as after `finish`.
    pub fn query_mut(&mut self, q: &Query, pos: usize, slot: usize) -> (r: Option<&mut V>)
        requires
            old(self).wf(),
            pos < q.matches().len(),
            slot < q.kinds().len(),
        ensures
            ({
                let e = q.matches()[pos as int];
                let c = q.kinds()[slot as int];
                match r {
                    Some(v) => {
                        &&& old(self).has(e, c)
                        &&& old(self).borrowed()[c.0 as int]
                        &&& *v == old(self).value(e, c)
                        &&& final(self).wf()
                        &&& final(self).stores().len() == old(self).stores().len()
                        &&& final(self).store(c) == old(self).store(c).insert(e.index, *final(v))
                        &&& forall|k: int|
                            0 <= k < old(self).stores().len() && k != c.0
                                ==> #[trigger] final(self).stores()[k] == old(self).stores()[k]
                        &&& final(self).allocator() == old(self).allocator()
                        &&& final(self).borrowed() == old(self).borrowed()
                    },
                    None => {
                        &&& !(old(self).has(e, c) && old(self).borrowed()[c.0 as int])
                        &&& *final(self) == *old(self)
                    },
                }
            }),
    {
        let e = q.entity(pos);
        let c = q.kind(slot);
        if !self.allocator.is_alive(e) || c.0 >= self.stores.len() || !self.borrowed[c.0]
            || !self.stores[c.0].contains(e.index) {
            return None;
        }
        self.stores[c.0].get_mut(e.index)
    }

    /// Ends session `q`: gives back the borrow permits of its types.
    pub fn finish(&mut self, q: Query)
        requires
            old(self).wf(),
            kinds_in_range(old(self).stores(), q.kinds()),
        ensures
            final(self).wf(),
            final(self).allocator() == old(self).allocator(),
            final(self).stores() == old(self).stores(),
            final(self).borrowed() == Self::released(old(self).borrowed(), q.kinds()),
    {
        let kinds = q.kinds_vec();
        let ghost before = self.borrowed@;
        let mut j: usize = 0;
        while j < kinds.len()
            invariant
                j <= kinds@.len(),
                kinds@ == q.kinds(),
                kinds_in_range(old(self).stores(), q.kinds()),
                self.allocator == old(self).allocator,
                self.stores == old(self).stores,
                before.len() == self.stores@.len(),
                self.borrowed@.len() == before.len(),
                forall|k: int|
                    0 <= k < before.len() ==> #[trigger] self.borrowed@[k] == (before[k] && !exists|
                        m: int,
                    | 0 <= m < j && kinds@[m].0 == k),
            decreases kinds@.len() - j,
        {
            assert(kinds@[j as int].0 < self.stores@.len());
            self.borrowed.set(kinds[j].0, false);
            proof {
                assert forall|k: int| 0 <= k < before.len() implies #[trigger] self.borrowed@[k] == (
                before[k] && !exists|m: int| 0 <= m < j + 1 && kinds@[m].0 == k) by {
                    if k == kinds@[j as int].0 {
                        assert(kinds@[j as int].0 == k);
                    }
                }
            }
            j = j + 1;
        }
        assert(self.borrowed@ =~= Self::released(before, q.kinds()));
    }
}

impl<'a, V> EntityEntry<'a, V> {
    pub fn entity(&self) -> (r: Entity)
        ensures
            r == self.handle,
    {
        self.handle
    }

    /// Gives the entity the value `v` of type `c`, as
    /// `World::insert_component` does, and hands the entry back.
    pub fn insert(self, c: ComponentId, v: V) -> (r: Result<EntityEntry<'a, V>, EcsError>)
        requires
            self.world.wf(),
        ensures
            match r {
                Ok(next) => {
                    &&& old(self.world).is_alive(self.handle)
                    &&& old(self.world).is_registered(c)
                    &&& next.handle == self.handle
                    &&& next.world.wf()
                    &&& next.world.stores().len() == old(self.world).stores().len()
                    &&& next.world.store(c) == old(self.world).store(c).insert(self.handle.index, v)
                    &&& forall|k: int|
                        0 <= k < old(self.world).stores().len() && k != c.0
                            ==> #[trigger] next.world.stores()[k] == old(self.world).stores()[k]
                    &&& next.world.allocator() == old(self.world).allocator()
                    &&& next.world.borrowed() == old(self.world).borrowed()
                    &&& *final(next.world) == *final(self.world)
                },
                Err(err) => {
                    &&& !old(self.world).is_alive(self.handle) ==> err == EcsError::EntityDead
                    &&& old(self.world).is_alive(self.handle) ==> !old(self.world).is_registered(c)
                        && err == EcsError::ComponentNotRegistered
                    &&& *final(self.world) == *old(self.world)
                },
            },
    {
        match self.world.insert_component(self.handle, c, v) {
            Ok(()) => Ok(self),
            Err(err) => Err(err),
        }
    }

    /// Takes the value of type `c` out of the entity, as
    /// `World::remove_component` does, and hands the entry back.
    pub fn remove(self, c: ComponentId) -> (r: Result<EntityEntry<'a, V>, EcsError>)
        requires
            self.world.wf(),
        ensures
            match r {
                Ok(next) => {
                    &&& old(self.world).is_alive(self.handle)
                    &&& old(self.world).is_registered(c)
                    &&& next.handle == self.handle
                    &&& next.world.wf()
                    &&& next.world.stores().len() == old(self.world).stores().len()
                    &&& next.world.store(c) == old(self.world).store(c).remove(self.handle.index)
                    &&& forall|k: int|
                        0 <= k < old(self.world).stores().len() && k != c.0
                            ==> #[trigger] next.world.stores()[k] == old(self.world).stores()[k]
                    &&& next.world.allocator() == old(self.world).allocator()
                    &&& next.world.borrowed() == old(self.world).borrowed()
                    &&& *final(next.world) == *final(self.world)
                },
                Err(err) => {
                    &&& !old(self.world).is_alive(self.handle) ==> err == EcsError::EntityDead
                    &&& old(self.world).is_alive(self.handle) ==> !old(self.world).is_registered(c)
                        && err == EcsError::ComponentNotRegistered
                    &&& *final(self.world) == *old(self.world)
                },
            },
    {
        match self.world.remove_component(self.handle, c) {
            Ok(_) => Ok(self),
            Err(err) => Err(err),
        }
    }
}

} // verus!
