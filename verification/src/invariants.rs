//! What the systems keep true of the store: that it stays well formed, how
//! many entities it holds, and how much food.

use vstd::prelude::*;
use crate::components::{EntityId, Food, GridVec, Input, Position};
use crate::events::Event;
use crate::store::{Components, Entities, has_room, holders, stored};
use crate::systems::growth::{fresh, grown, lemma_grown_dom, segment_for};
use crate::systems::lifecycle::{
    fed_at, food_at, food_count, lemma_feeding_bound, snake_created, snake_created_as, FOOD_LIMIT,
};
use crate::systems::movement::{followable, followed, moved, steered, synced, tail_followed};
use crate::systems::score::captioned;
use crate::systems::{anchors, edible, well_formed};

verus! {

/// Whether two entities carry the same kinds of components, and agree on
/// all but where they are, how they move and what their text reads.
pub open spec fn alike(c: Components, d: Components) -> bool {
    &&& c.snake == d.snake
    &&& c.food == d.food
    &&& c.score == d.score
    &&& c.tail == d.tail
    &&& c.collision == d.collision
    &&& c.material == d.material
    &&& c.mesh == d.mesh
    &&& c.position.is_some() == d.position.is_some()
    &&& c.velocity.is_some() == d.velocity.is_some()
    &&& c.head_direction.is_some() == d.head_direction.is_some()
    &&& c.text.is_some() == d.text.is_some()
}

/// Whether two stores hold the same entities, each alike in both.
pub open spec fn same_shape(a: Entities, b: Entities) -> bool {
    &&& a.dom() == b.dom()
    &&& forall|id: EntityId| #[trigger] a.dom().contains(id) ==> alike(a[id], b[id])
}

/// Direction intake keeps the shape of the store.
pub proof fn lemma_steered_shape(m: Entities, input: Input)
    ensures
        same_shape(m, m.map_values(|c: Components| steered(c, input))),
{
    assert(m.map_values(|c: Components| steered(c, input)).dom() =~= m.dom());
}

/// Velocity synchronization keeps the shape of the store.
pub proof fn lemma_synced_shape(m: Entities)
    ensures
        same_shape(m, m.map_values(|c: Components| synced(c))),
{
    assert(m.map_values(|c: Components| synced(c)).dom() =~= m.dom());
}

/// The position update keeps the shape of the store.
pub proof fn lemma_moved_shape(m: Entities)
    ensures
        same_shape(m, m.map_values(|c: Components| moved(c))),
{
    assert(m.map_values(|c: Components| moved(c)).dom() =~= m.dom());
}

/// Tail-follow keeps the shape of a store in which it can run.
pub proof fn lemma_followed_shape(m: Entities)
    requires
        followable(m),
    ensures
        same_shape(m, tail_followed(m)),
{
    assert(tail_followed(m).dom() =~= m.dom());
    assert forall|id: EntityId| #[trigger] m.dom().contains(id) implies alike(
        m[id],
        tail_followed(m)[id],
    ) by {
        if m[id].tail.is_some() {
            assert(stored::<Position>(m, m[id].tail.unwrap().ahead).is_some());
        }
    }
}

/// Rewriting the score keeps the shape of the store.
pub proof fn lemma_captioned_shape(m: Entities, events: Seq<Event>, start: int)
    ensures
        same_shape(m, m.map_values(|c: Components| captioned(c, events, start))),
{
    assert(m.map_values(|c: Components| captioned(c, events, start)).dom() =~= m.dom());
}

/// Stores of the same shape are of the same shape in turn.
pub proof fn lemma_shape_chain(a: Entities, b: Entities, c: Entities)
    requires
        same_shape(a, b),
        same_shape(b, c),
    ensures
        same_shape(a, c),
{
    assert forall|id: EntityId| #[trigger] a.dom().contains(id) implies alike(a[id], c[id]) by {
        assert(b.dom().contains(id));
    }
}

/// A store of the shape of a well-formed one is well formed, holds as many
/// entities, and as much food.
pub proof fn lemma_shape_keeps(a: Entities, b: Entities)
    requires
        same_shape(a, b),
    ensures
        well_formed(a) ==> well_formed(b),
        followable(a) ==> followable(b),
        forall|n: nat| has_room(a, n) ==> has_room(b, n),
        holders::<Food>(a) == holders::<Food>(b),
        food_count(a) == food_count(b),
{
    if well_formed(a) {
        assert forall|id: EntityId| #[trigger]
            b.dom().contains(id) && b[id].tail.is_some() implies !edible(b[id]) && anchors(
            b,
            b[id].tail.unwrap().ahead,
        ) by {
            assert(a.dom().contains(id));
            let ahead = a[id].tail.unwrap().ahead;
            assert(anchors(a, ahead));
            assert(a.dom().contains(ahead));
        }
    }
    if followable(a) {
        assert forall|id: EntityId| #[trigger]
            b.dom().contains(id) && b[id].tail.is_some() implies stored::<Position>(b, b[id].tail.unwrap().ahead).is_some() by {
            assert(a.dom().contains(id));
            let ahead = a[id].tail.unwrap().ahead;
            assert(stored::<Position>(a, ahead).is_some());
            assert(a.dom().contains(ahead));
        }
    }
    assert(holders::<Food>(a) =~= holders::<Food>(b)) by {
        assert forall|id: EntityId| holders::<Food>(a).contains(id) == holders::<Food>(
            b,
        ).contains(id) by {
            if a.dom().contains(id) {
                assert(alike(a[id], b[id]));
            }
        }
    }
}

/// In a well-formed store every segment follows an entity with a position.
pub proof fn lemma_wf_followable(m: Entities)
    requires
        well_formed(m),
    ensures
        followable(m),
{
    assert forall|id: EntityId| #[trigger]
        m.dom().contains(id) && m[id].tail.is_some() implies stored::<Position>(m, m[id].tail.unwrap().ahead).is_some() by {
        assert(anchors(m, m[id].tail.unwrap().ahead));
    }
}

/// The food of a finite store is finite, and no more than the store holds.
pub proof fn lemma_food_finite(m: Entities)
    requires
        m.dom().finite(),
    ensures
        holders::<Food>(m).finite(),
        food_count(m) <= m.dom().len(),
{
    assert(holders::<Food>(m).subset_of(m.dom()));
    vstd::set_lib::lemma_len_subset(holders::<Food>(m), m.dom());
}

/// Removing entities that the head can eat leaves a well-formed store well
/// formed, and does not add food.
pub proof fn lemma_removal_keeps(m: Entities, gone: Set<EntityId>)
    requires
        well_formed(m),
        forall|id: EntityId| gone.contains(id) && m.dom().contains(id) ==> edible(m[id]),
    ensures
        well_formed(m.remove_keys(gone)),
        food_count(m.remove_keys(gone)) <= food_count(m),
{
    let rest = m.remove_keys(gone);
    assert(rest.dom().subset_of(m.dom()));
    vstd::set_lib::lemma_len_subset(rest.dom(), m.dom());
    assert forall|id: EntityId| #[trigger]
        rest.dom().contains(id) && rest[id].tail.is_some() implies !edible(rest[id]) && anchors(
        rest,
        rest[id].tail.unwrap().ahead,
    ) by {
        assert(m.dom().contains(id));
        assert(anchors(m, m[id].tail.unwrap().ahead));
    }
    lemma_food_finite(m);
    assert(holders::<Food>(rest).subset_of(holders::<Food>(m)));
    vstd::set_lib::lemma_len_subset(holders::<Food>(rest), holders::<Food>(m));
}

/// Removing distinct live entities leaves as many fewer as were removed.
pub proof fn lemma_removal_count(m: Entities, gone: Seq<EntityId>)
    requires
        m.dom().finite(),
        gone.no_duplicates(),
        forall|id: EntityId| gone.contains(id) ==> m.dom().contains(id),
    ensures
        m.remove_keys(gone.to_set()).dom().finite(),
        m.remove_keys(gone.to_set()).dom().len() + gone.len() == m.dom().len(),
    decreases gone.len(),
{
    if gone.len() == 0 {
        assert(m.remove_keys(gone.to_set()) =~= m);
    } else {
        let front = gone.drop_last();
        let last = gone.last();
        assert forall|id: EntityId| front.contains(id) implies m.dom().contains(id) by {
            let j = choose|j: int| 0 <= j < front.len() && front[j] == id;
            assert(gone[j] == id);
            assert(gone.contains(id));
        }
        lemma_removal_count(m, front);
        assert(gone =~= front.push(last));
        front.lemma_push_to_set_commute(last);
        assert(gone[gone.len() - 1] == last);
        assert(gone.contains(last));
        assert(!front.contains(last)) by {
            if front.contains(last) {
                let j = choose|j: int| 0 <= j < front.len() && front[j] == last;
                assert(gone[j] == gone[gone.len() - 1]);
            }
        }
        assert(m.remove_keys(gone.to_set()).dom() =~= m.remove_keys(front.to_set()).dom().remove(
            last,
        ));
        assert(m.remove_keys(front.to_set()).dom().contains(last));
    }
}

/// Whether each of the first `n` requests asks to grow behind an entity
/// that can be followed.
pub open spec fn anchored(m: Entities, requests: Seq<Event>, n: nat) -> bool {
    &&& n <= requests.len()
    &&& forall|i: int|
        0 <= i < n ==> match #[trigger] requests[i] {
            Event::SpawnSnakeTail { ahead, .. } => anchors(m, ahead),
            _ => false,
        }
}

/// New segments behind entities that can be followed leave a well-formed
/// store well formed, and add no food.
pub proof fn lemma_growth_keeps(m: Entities, ids: Seq<EntityId>, requests: Seq<Event>)
    requires
        well_formed(m),
        fresh(m, ids),
        anchored(m, requests, ids.len()),
    ensures
        well_formed(grown(m, ids, requests)),
        holders::<Food>(grown(m, ids, requests)) == holders::<Food>(m),
        food_count(grown(m, ids, requests)) == food_count(m),
        forall|id: EntityId| m.dom().contains(id) ==> grown(m, ids, requests).dom().contains(id)
            && grown(m, ids, requests)[id] == m[id],
    decreases ids.len(),
{
    if ids.len() > 0 {
        let front = ids.drop_last();
        let before = grown(m, front, requests);
        let id = ids.last();
        let c = segment_for(requests[ids.len() - 1]);
        lemma_growth_keeps(m, front, requests);
        lemma_grown_dom(m, front, requests);
        lemma_grown_dom(m, ids, requests);
        assert(!before.dom().contains(id)) by {
            assert(!m.dom().contains(ids[ids.len() - 1]));
            if front.to_set().contains(id) {
                let j = choose|j: int| 0 <= j < front.len() && front[j] == id;
                assert(ids[j] == ids[ids.len() - 1]);
            }
        }
        let after = before.insert(id, c);
        assert(after == grown(m, ids, requests));
        assert forall|x: EntityId| #[trigger]
            after.dom().contains(x) && after[x].tail.is_some() implies !edible(after[x])
            && anchors(after, after[x].tail.unwrap().ahead) by {
            if x == id {
                let ahead = after[x].tail.unwrap().ahead;
                assert(anchors(m, ahead));
                assert(before[ahead] == m[ahead]);
            } else {
                assert(before.dom().contains(x));
                assert(anchors(before, before[x].tail.unwrap().ahead));
            }
        }
        assert(holders::<Food>(after) =~= holders::<Food>(before));
    }
}

/// The snake a game starts with is a well-formed store of two entities,
/// without food.
pub proof fn lemma_new_snake(after: Entities)
    requires
        snake_created(Entities::empty(), after),
    ensures
        well_formed(after),
        after.dom().len() == 2,
        food_count(after) == 0,
{
    let (head, tail) = choose|head: EntityId, tail: EntityId| #[trigger]
        snake_created_as(Entities::empty(), after, head, tail);
    assert(after.dom() =~= Set::<EntityId>::empty().insert(head).insert(tail));
    assert(holders::<Food>(after) =~= Set::<EntityId>::empty());
}

/// Food that is added within the limit leaves a well-formed store well
/// formed, with at most one entity more and no more food than the limit.
pub proof fn lemma_feeding_keeps(before: Entities, after: Entities, pos: GridVec)
    requires
        well_formed(before),
        fed_at(before, after, pos),
    ensures
        well_formed(after),
        after.dom().len() <= before.dom().len() + 1,
        food_count(before) <= FOOD_LIMIT ==> food_count(after) <= FOOD_LIMIT,
        food_count(after) <= food_count(before) + 1,
{
    if food_count(before) < FOOD_LIMIT {
        let id = choose|id: EntityId|
            !before.dom().contains(id) && after == #[trigger] before.insert(id, food_at(pos));
        assert forall|x: EntityId| #[trigger]
            after.dom().contains(x) && after[x].tail.is_some() implies !edible(after[x])
            && anchors(after, after[x].tail.unwrap().ahead) by {
            assert(before.dom().contains(x));
            assert(anchors(before, before[x].tail.unwrap().ahead));
        }
    }
    lemma_feeding_bound(before, after, pos);
}

} // verus!
