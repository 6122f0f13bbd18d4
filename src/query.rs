use vstd::prelude::*;

use crate::entity::Entity;
use crate::storage::ComponentStorage;

verus! {

/// Identifies a registered component type: the position of its storage in
/// the world, handed out in order of registration.
#[derive(Clone, Copy, Debug, PartialEq, Eq, Structural)]
pub struct ComponentId(pub usize);

/// Whether every storage named in `kinds` holds a value at `index`.
pub open spec fn held_by_all<V>(
    stores: Seq<ComponentStorage<V>>,
    kinds: Seq<ComponentId>,
    index: usize,
) -> bool {
    forall|j: int| 0 <= j < kinds.len() ==> (#[trigger] stores[kinds[j].0 as int])@.contains_key(index)
}

/// Whether every entry of `kinds` names one of `stores`.
pub open spec fn kinds_in_range<V>(stores: Seq<ComponentStorage<V>>, kinds: Seq<ComponentId>) -> bool {
    forall|j: int| 0 <= j < kinds.len() ==> (#[trigger] kinds[j]).0 < stores.len()
}

/// The least index at or after `start` that every storage named in `kinds`
/// holds.
///
/// Leapfrogs: each storage in turn moves the candidate up to its own next
/// held index; a full round that moves nothing has found a match.
pub fn next_match<V>(stores: &Vec<ComponentStorage<V>>, kinds: &Vec<ComponentId>, start: usize) -> (r:
    Option<usize>)
    requires
        kinds_in_range(stores@, kinds@),
        kinds@.len() > 0,
    ensures
        match r {
            Some(k) => {
                &&& start <= k
                &&& held_by_all(stores@, kinds@, k)
                &&& forall|i: usize| start <= i < k ==> !#[trigger] held_by_all(stores@, kinds@, i)
            },
            None => forall|i: usize| start <= i ==> !#[trigger] held_by_all(stores@, kinds@, i),
        },
{
    let mut candidate = start;
    loop
        invariant
            kinds_in_range(stores@, kinds@),
            kinds@.len() > 0,
            start <= candidate,
            forall|i: usize| start <= i < candidate ==> !#[trigger] held_by_all(stores@, kinds@, i),
        decreases usize::MAX - candidate,
    {
        let round_start = candidate;
        let mut j: usize = 0;
        while j < kinds.len()
            invariant
                kinds_in_range(stores@, kinds@),
                start <= round_start <= candidate,
                j <= kinds@.len(),
                forall|i: usize|
                    start <= i < candidate ==> !#[trigger] held_by_all(stores@, kinds@, i),
                candidate == round_start ==> forall|m: int|
                    0 <= m < j ==> (#[trigger] stores@[kinds@[m].0 as int])@.contains_key(
                        candidate,
                    ),
            decreases kinds@.len() - j,
        {
            let store = &stores[kinds[j].0];
            match store.next_entry(candidate) {
                None => {
                    proof {
                        assert forall|i: usize| start <= i implies !#[trigger] held_by_all(
                            stores@,
                            kinds@,
                            i,
                        ) by {
                            if candidate <= i {
                                assert(!stores@[kinds@[j as int].0 as int]@.contains_key(i));
                            }
                        }
                    }
                    return None;
                },
                Some(e) => {
                    if e > candidate {
                        proof {
                            assert forall|i: usize| start <= i < e implies !#[trigger] held_by_all(
                                stores@,
                                kinds@,
                                i,
                            ) by {
                                if candidate <= i {
                                    assert(!stores@[kinds@[j as int].0 as int]@.contains_key(i));
                                }
                            }
                        }
                        candidate = e;
                    }
                },
            }
            j = j + 1;
        }
        if candidate == round_start {
            return Some(candidate);
        }
    }
}

/// Every index that all storages named in `kinds` hold, ascending: the
/// intersection of their presence indices.
pub fn matching_indices<V>(stores: &Vec<ComponentStorage<V>>, kinds: &Vec<ComponentId>) -> (r: Vec<
    usize,
>)
    requires
        kinds_in_range(stores@, kinds@),
        kinds@.len() > 0,
    ensures
        forall|j: int, k: int| 0 <= j < k < r@.len() ==> r@[j] < r@[k],
        forall|i: usize| held_by_all(stores@, kinds@, i) <==> #[trigger] r@.contains(i),
{
    let mut r: Vec<usize> = Vec::new();
    let mut start: usize = 0;
    loop
        invariant
            kinds_in_range(stores@, kinds@),
            kinds@.len() > 0,
            forall|j: int, k: int| 0 <= j < k < r@.len() ==> r@[j] < r@[k],
            forall|j: int| 0 <= j < r@.len() ==> r@[j] < start,
            forall|i: usize|
                i < start ==> (held_by_all(stores@, kinds@, i) <==> #[trigger] r@.contains(i)),
            forall|i: usize| #[trigger] r@.contains(i) ==> i < start,
        decreases usize::MAX - start,
    {
        match next_match(stores, kinds, start) {
            None => {
                return r;
            },
            Some(i) => {
                let ghost before = r@;
                r.push(i);
                assert forall|x: usize| #[trigger] r@.contains(x) <==> before.contains(x) || x
                    == i by {
                    if before.contains(x) {
                        let j = choose|j: int| 0 <= j < before.len() && before[j] == x;
                        assert(r@[j] == x);
                    }
                    if x == i {
                        assert(r@[before.len() as int] == x);
                    }
                }
                assert(stores@[kinds@[0].0 as int]@.contains_key(i));
                if i == usize::MAX {
                    return r;
                }
                start = i + 1;
            },
        }
    }
}

/// A query session: the component types it asked for and, ascending by
/// index, the entities that held all of them when it began.
///
/// While the session is open the world holds a borrow permit for each of its
/// component types, and no other session over any of them can begin.
pub struct Query {
    kinds: Vec<ComponentId>,
    matches: Vec<Entity>,
}

impl Query {
    pub closed spec fn kinds(self) -> Seq<ComponentId> {
        self.kinds@
    }

    pub closed spec fn matches(self) -> Seq<Entity> {
        self.matches@
    }

    pub(crate) fn from_parts(kinds: Vec<ComponentId>, matches: Vec<Entity>) -> (q: Query)
        ensures
            q.kinds() == kinds@,
            q.matches() == matches@,
    {
        Query { kinds, matches }
    }

    /// Number of matching entities.
    pub fn len(&self) -> (r: usize)
        ensures
            r == self.matches().len(),
    {
        self.matches.len()
    }

    /// The `pos`-th matching entity.
    pub fn entity(&self, pos: usize) -> (e: Entity)
        requires
            pos < self.matches().len(),
        ensures
            e == self.matches()[pos as int],
    {
        self.matches[pos]
    }

    /// The `slot`-th component type of the session.
    pub fn kind(&self, slot: usize) -> (c: ComponentId)
        requires
            slot < self.kinds().len(),
        ensures
            c == self.kinds()[slot as int],
    {
        self.kinds[slot]
    }

    /// The session's component types.
    pub fn kinds_vec(&self) -> (r: Vec<ComponentId>)
        ensures
            r@ == self.kinds(),
    {
        self.kinds.clone()
    }

    /// All matching entities, ascending by index.
    pub fn entities(&self) -> (r: Vec<Entity>)
        ensures
            r@ == self.matches(),
    {
        self.matches.clone()
    }
}

} // verus!
