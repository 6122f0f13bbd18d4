use vstd::prelude::*;

verus! {

/// A handle to an entity: a slot index and the generation of that slot at
/// the time the handle was made.
#[derive(Clone, Copy, Debug, PartialEq, Eq, Structural)]
pub struct Entity {
    pub index: usize,
    pub generation: u32,
}

impl Entity {
    pub fn new(index: usize, generation: u32) -> (e: Entity)
        ensures
            e.index == index,
            e.generation == generation,
    {
        Entity { index, generation }
    }

    pub fn index(&self) -> (r: usize)
        ensures
            r == self.index,
    {
        self.index
    }

    pub fn generation(&self) -> (r: u32)
        ensures
            r == self.generation,
    {
        self.generation
    }
}

/// Hands out entity handles, recycles freed slots and tells live handles
/// from stale ones.
///
/// Each slot has a current generation and a live flag. A freed slot goes on
/// the free list; when it is handed out again its generation is advanced, so
/// every handle made for it before compares unequal to the new one. A slot
/// whose generation has reached `u32::MAX` is retired instead of recycled.
pub struct EntityAllocator {
    generations: Vec<u32>,
    live: Vec<bool>,
    free: Vec<usize>,
}

impl EntityAllocator {
    pub closed spec fn generations(self) -> Seq<u32> {
        self.generations@
    }

    pub closed spec fn live(self) -> Seq<bool> {
        self.live@
    }

    pub closed spec fn free_list(self) -> Seq<usize> {
        self.free@
    }

    /// Number of slots ever allocated.
    pub open spec fn slots(self) -> nat {
        self.generations().len()
    }

    pub open spec fn is_alive_spec(self, e: Entity) -> bool {
        &&& e.index < self.slots()
        &&& self.generations()[e.index as int] == e.generation
        &&& self.live()[e.index as int]
    }

    pub open spec fn wf(self) -> bool {
        &&& self.live().len() == self.generations().len()
        &&& self.slots() <= usize::MAX
        &&& forall|j: int|
            0 <= j < self.free_list().len() ==> {
                let i = #[trigger] self.free_list()[j];
                &&& i < self.slots()
                &&& !self.live()[i as int]
                &&& self.generations()[i as int] < u32::MAX
            }
        &&& forall|j: int, k: int|
            0 <= j < k < self.free_list().len() ==> self.free_list()[j]
                != self.free_list()[k]
    }

    pub fn new() -> (a: EntityAllocator)
        ensures
            a.wf(),
            a.slots() == 0,
            a.free_list().len() == 0,
    {
        EntityAllocator { generations: Vec::new(), live: Vec::new(), free: Vec::new() }
    }

    pub fn is_alive(&self, e: Entity) -> (r: bool)
        requires
            self.wf(),
        ensures
            r == self.is_alive_spec(e),
    {
        e.index < self.generations.len() && self.generations[e.index] == e.generation
            && self.live[e.index]
    }

    /// The handle that is live at slot `index`, if any.
    pub fn live_at(&self, index: usize) -> (r: Option<Entity>)
        requires
            self.wf(),
        ensures
            r == (if index < self.slots() && self.live()[index as int] {
                Some(Entity { index, generation: self.generations()[index as int] })
            } else {
                None::<Entity>
            }),
    {
        if index < self.live.len() && self.live[index] {
            Some(Entity { index, generation: self.generations[index] })
        } else {
            None
        }
    }

    /// Allocates a handle: the most recently freed slot with its generation
    /// advanced by one, or else a new slot with generation 0.
    pub fn allocate(&mut self) -> (e: Entity)
        requires
            old(self).wf(),
        ensures
            final(self).wf(),
            final(self).is_alive_spec(e),
            !old(self).is_alive_spec(e),
            old(self).free_list().len() > 0 ==> {
                let i = old(self).free_list().last();
                &&& e.index == i
                &&& e.generation == old(self).generations()[i as int] + 1
                &&& final(self).free_list() == old(self).free_list().drop_last()
                &&& final(self).generations() == old(self).generations().update(
                    i as int,
                    e.generation,
                )
                &&& final(self).live() == old(self).live().update(i as int, true)
            },
            old(self).free_list().len() == 0 ==> {
                &&& e.index == old(self).slots()
                &&& e.generation == 0
                &&& final(self).free_list() == old(self).free_list()
                &&& final(self).generations() == old(self).generations().push(0)
                &&& final(self).live() == old(self).live().push(true)
            },
            forall|x: Entity|
                old(self).is_alive_spec(x) ==> #[trigger] final(self).is_alive_spec(x),
            forall|x: Entity|
                #[trigger] final(self).is_alive_spec(x) ==> x == e || old(
                    self,
                ).is_alive_spec(x),
    {
        match self.free.pop() {
            Some(index) => {
                assert(old(self).free@[old(self).free@.len() - 1] == index);
                let generation = self.generations[index] + 1;
                self.generations.set(index, generation);
                self.live.set(index, true);
                proof {
                    assert forall|j: int| 0 <= j < self.free@.len() implies {
                        let i = #[trigger] self.free@[j];
                        &&& i < self.generations@.len()
                        &&& !self.live@[i as int]
                        &&& self.generations@[i as int] < u32::MAX
                    } by {
                        assert(self.free@[j] == old(self).free_list()[j]);
                        assert(self.free@[j] != index);
                    }
                }
                Entity { index, generation }
            },
            None => {
                let index = self.generations.len();
                self.generations.push(0);
                self.live.push(false);
                self.live.set(index, true);
                assert(self.generations.len() == self.generations@.len());
                Entity { index, generation: 0 }
            },
        }
    }

    /// Frees a live handle's slot. Freeing a handle that is not live changes
    /// nothing and returns `false`.
    pub fn free(&mut self, e: Entity) -> (r: bool)
        requires
            old(self).wf(),
        ensures
            final(self).wf(),
            r == old(self).is_alive_spec(e),
            final(self).generations() == old(self).generations(),
            r ==> final(self).live() == old(self).live().update(e.index as int, false),
            !r ==> final(self).live() == old(self).live(),
            r && e.generation < u32::MAX ==> final(self).free_list() == old(
                self,
            ).free_list().push(e.index),
            !(r && e.generation < u32::MAX) ==> final(self).free_list() == old(self).free_list(),
            forall|x: Entity| #[trigger]
                final(self).is_alive_spec(x) <==> old(self).is_alive_spec(x) && x != e,
    {
        if !self.is_alive(e) {
            return false;
        }
        self.live.set(e.index, false);
        if e.generation < u32::MAX {
            proof {
                assert forall|j: int| 0 <= j < self.free@.len() implies #[trigger] self.free@[j]
                    != e.index by {
                    let i = old(self).free_list()[j];
                    assert(!old(self).live()[i as int]);
                }
            }
            self.free.push(e.index);
            proof {
                assert forall|j: int, k: int|
                    0 <= j < k < self.free@.len() implies self.free@[j] != self.free@[k] by {
                    if k == self.free@.len() - 1 {
                        assert(self.free@[j] == old(self).free_list()[j]);
                    } else {
                        assert(self.free@[j] == old(self).free_list()[j]);
                        assert(self.free@[k] == old(self).free_list()[k]);
                    }
                }
            }
        }
        true
    }
}

} // verus!
