//! Properties that relate several operations of a world, proved from their
//! contracts.

use vstd::prelude::*;

use crate::entity::Entity;
use crate::query::{ComponentId, Query};
use crate::world::{EcsError, World};

verus! {

/// A session lists every entity that has all of its component types
/// exactly once.
pub proof fn lemma_query_lists_each_match_once<V>(
    w: World<V>,
    kinds: Seq<ComponentId>,
    q: Query,
    e: Entity,
)
    requires
        w.wf(),
        w.lists_matches(kinds, q),
        w.matches(kinds, e),
    ensures
        exists|j: int| 0 <= j < q.matches().len() && q.matches()[j] == e,
        forall|j: int, k: int|
            0 <= j < q.matches().len() && 0 <= k < q.matches().len() && q.matches()[j] == e
                && q.matches()[k] == e ==> j == k,
{
    assert(q.matches().contains(e));
    assert forall|j: int, k: int|
        0 <= j < q.matches().len() && 0 <= k < q.matches().len() && q.matches()[j] == e
            && q.matches()[k] == e implies j == k by {
        if j < k {
            assert(q.matches()[j].index < q.matches()[k].index);
        } else if k < j {
            assert(q.matches()[k].index < q.matches()[j].index);
        }
    }
}

/// A value written through `World::query_mut` is the value that
/// `World::get_component` reads afterwards.
pub proof fn lemma_write_is_read<V>(
    before: World<V>,
    after: World<V>,
    e: Entity,
    c: ComponentId,
    written: V,
)
    requires
        before.wf(),
        before.has(e, c),
        after.allocator() == before.allocator(),
        after.stores().len() == before.stores().len(),
        after.store(c) == before.store(c).insert(e.index, written),
    ensures
        after.has(e, c),
        after.value(e, c) == written,
{
}

/// Taking component type `c` from `e` drops `e` from every session that
/// asks for `c` and changes no session that does not.
pub proof fn lemma_removal_narrows_queries<V>(
    before: World<V>,
    after: World<V>,
    e: Entity,
    c: ComponentId,
    kinds: Seq<ComponentId>,
)
    requires
        before.wf(),
        before.is_alive(e),
        before.is_registered(c),
        forall|j: int| 0 <= j < kinds.len() ==> before.is_registered(#[trigger] kinds[j]),
        after.allocator() == before.allocator(),
        after.stores().len() == before.stores().len(),
        after.store(c) == before.store(c).remove(e.index),
        forall|k: int|
            0 <= k < before.stores().len() && k != c.0 ==> #[trigger] after.stores()[k]
                == before.stores()[k],
    ensures
        kinds.contains(c) ==> !after.matches(kinds, e),
        !kinds.contains(c) ==> forall|x: Entity| #[trigger]
            after.matches(kinds, x) == before.matches(kinds, x),
{
    if kinds.contains(c) {
        let j = choose|j: int| 0 <= j < kinds.len() && kinds[j] == c;
        assert(!after.store(kinds[j]).contains_key(e.index));
    } else {
        assert forall|j: int| 0 <= j < kinds.len() implies #[trigger] after.stores()[kinds[j].0 as int]
            == before.stores()[kinds[j].0 as int] by {
            assert(kinds[j] != c);
        }
        assert forall|x: Entity| #[trigger] after.matches(kinds, x) == before.matches(kinds, x) by {
            if before.matches(kinds, x) {
                assert forall|j: int| 0 <= j < kinds.len() implies (#[trigger] after.stores()[kinds[j].0 as int])@.contains_key(x.index) by {
                    assert(before.stores()[kinds[j].0 as int]@.contains_key(x.index));
                }
            }
            if after.matches(kinds, x) {
                assert forall|j: int| 0 <= j < kinds.len() implies (#[trigger] before.stores()[kinds[j].0 as int])@.contains_key(x.index) by {
                    assert(after.stores()[kinds[j].0 as int]@.contains_key(x.index));
                }
            }
        }
    }
}

/// After `remove_entity(e)` and then `add_entity()`, the new handle may
/// reuse `e`'s index but is never `e`, and `e` stays dead, with no
/// component readable through it.
pub proof fn lemma_recycled_handle_differs<V>(
    w1: World<V>,
    w2: World<V>,
    w3: World<V>,
    e: Entity,
    fresh: Entity,
)
    requires
        w1.wf(),
        w1.is_alive(e),
        w2.wf(),
        forall|x: Entity| #[trigger] w2.is_alive(x) <==> w1.is_alive(x) && x != e,
        w2.allocator().generations() == w1.allocator().generations(),
        w2.allocator().free_list().len() > 0 ==> {
            let i = w2.allocator().free_list().last();
            &&& fresh.index == i
            &&& fresh.generation == w2.allocator().generations()[i as int] + 1
        },
        w2.allocator().free_list().len() == 0 ==> fresh.index == w2.allocator().slots(),
        forall|x: Entity| #[trigger] w3.is_alive(x) <==> w2.is_alive(x) || x == fresh,
    ensures
        fresh != e,
        !w3.is_alive(e),
        forall|c: ComponentId| !#[trigger] w3.has(e, c),
{
    assert(!w2.is_alive(e));
    assert(w1.allocator().generations()[e.index as int] == e.generation);
}

/// While a session over `held` is open, a session over any `kinds` that
/// shares a component type with it is refused with
/// `RecursiveBorrowConflict`.
pub proof fn lemma_overlapping_sessions_refused<V>(
    before: World<V>,
    during: World<V>,
    held: Seq<ComponentId>,
    kinds: Seq<ComponentId>,
    shared: ComponentId,
)
    requires
        before.wf(),
        before.query_error(held) is None,
        during.stores().len() == before.stores().len(),
        during.borrowed() == World::<V>::taken(before.borrowed(), held),
        held.contains(shared),
        kinds.contains(shared),
        forall|j: int| 0 <= j < kinds.len() ==> during.is_registered(#[trigger] kinds[j]),
        forall|j: int, k: int| 0 <= j < k < kinds.len() ==> kinds[j] != kinds[k],
    ensures
        during.query_error(kinds) == Some(EcsError::RecursiveBorrowConflict),
{
    let m = choose|m: int| 0 <= m < held.len() && held[m] == shared;
    let n = choose|n: int| 0 <= n < kinds.len() && kinds[n] == shared;
    assert(before.is_registered(held[m]));
    assert(during.borrowed()[kinds[n].0 as int]);
}

/// Inserting `v` as component `c` of `e`, then removing it, gives `v` back
/// and leaves `e` without a value of type `c`.
pub proof fn lemma_insert_remove_round_trip<V>(
    w1: World<V>,
    w2: World<V>,
    w3: World<V>,
    e: Entity,
    c: ComponentId,
    v: V,
    removed: Option<V>,
)
    requires
        w1.wf(),
        w1.is_alive(e),
        w1.is_registered(c),
        w2.allocator() == w1.allocator(),
        w2.stores().len() == w1.stores().len(),
        w2.store(c) == w1.store(c).insert(e.index, v),
        removed == (if w2.has(e, c) {
            Some(w2.value(e, c))
        } else {
            None
        }),
        w3.allocator() == w2.allocator(),
        w3.stores().len() == w2.stores().len(),
        w3.store(c) == w2.store(c).remove(e.index),
    ensures
        removed == Some(v),
        !w3.has(e, c),
{
}

} // verus!
