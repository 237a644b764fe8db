//! Growth and the life of food: eaten food leaves the store, the snake
//! grows by one segment for each meal, and new food appears while there is
//! less than the limit.

use vstd::prelude::*;
use crate::components::{Collision, CollisionKind, EntityId, Material, Mesh, Position, Tail};
use crate::events::Event;
use crate::seqs::{lemma_filter_map_prefix, lemma_filter_prefix};
use crate::store::{
    Components, despawn, Entities, get, has_room, holders2, lists_exactly, select2, spawn_segment,
};
use crate::systems::GameWorld;

verus! {

/// The food that an event says was eaten, if it says so.
pub open spec fn meal_of(e: Event) -> Option<EntityId> {
    match e {
        Event::SnakeEatFood { entity, .. } => Some(entity),
        _ => None,
    }
}

/// The food that the events of a queue say was eaten, in their order.
pub open spec fn meals(events: Seq<Event>) -> Seq<EntityId> {
    events.filter_map(|e: Event| meal_of(e))
}

/// Whether the food of every meal is alive, and no food is eaten twice.
pub open spec fn servable(events: Seq<Event>, m: Entities) -> bool {
    &&& meals(events).no_duplicates()
    &&& forall|id: EntityId| meals(events).contains(id) ==> m.dom().contains(id)
}

/// Removes from the store the food of every meal in the queue.
pub fn despawn_food_system(game_world: &mut GameWorld)
    requires
        servable(old(game_world).events@, old(game_world).entities()),
    ensures
        final(game_world).entities() == old(game_world).entities().remove_keys(
            meals(old(game_world).events@).to_set(),
        ),
        final(game_world).events@ == old(game_world).events@,
{
    let ghost m = game_world.entities();
    let ghost events = game_world.events@;
    let n: usize = game_world.events.len();
    let mut i: usize = 0;
    proof {
        assert(events.take(0) =~= Seq::<Event>::empty());
        assert(meals(events.take(0)) =~= Seq::<EntityId>::empty());
        assert(m.remove_keys(meals(events.take(0)).to_set()) =~= m);
    }
    while i < n
        invariant
            i <= n,
            n == events.len(),
            game_world.events@ == events,
            servable(events, m),
            game_world.entities() == m.remove_keys(meals(events.take(i as int)).to_set()),
        decreases n - i,
    {
        let e: Event = game_world.events[i];
        proof {
            events.lemma_filter_map_take_succ(|e: Event| meal_of(e), i as int);
        }
        match e {
            Event::SnakeEatFood { entity, pos: _ } => {
                let ghost eaten = meals(events.take(i as int));
                proof {
                    lemma_filter_map_prefix(events, |e: Event| meal_of(e), i as int + 1);
                    assert(meals(events.take(i as int + 1)) == eaten.push(entity));
                    assert(eaten.push(entity)[eaten.len() as int] == entity);
                    assert(meals(events).contains(entity));
                    assert(!eaten.contains(entity)) by {
                        if eaten.contains(entity) {
                            let j = choose|j: int| 0 <= j < eaten.len() && eaten[j] == entity;
                            assert(eaten.push(entity)[j] == entity);
                        }
                    }
                }
                let was_alive: bool = despawn(&mut game_world.world, entity);
                assert(was_alive);
                proof {
                    eaten.lemma_push_to_set_commute(entity);
                    assert(game_world.entities() =~= m.remove_keys(
                        meals(events.take(i as int + 1)).to_set(),
                    ));
                }
            },
            _ => {},
        }
        i += 1;
    }
    proof {
        assert(events.take(n as int) =~= events);
    }
}

/// The test that picks the requests to grow out of a queue.
pub open spec fn wants_growth() -> spec_fn(Event) -> bool {
    |e: Event| e is SpawnSnakeTail
}

/// The requests to grow in a queue, in their order.
pub open spec fn growths(events: Seq<Event>) -> Seq<Event> {
    events.filter(wants_growth())
}

/// Whether `id` is a segment that has a position.
pub open spec fn is_segment(m: Entities, id: EntityId) -> bool {
    holders2::<Tail, Position>(m).contains(id)
}

/// Whether `id` is a segment that no segment outnumbers: an end of the tail.
pub open spec fn is_tail_end(m: Entities, id: EntityId) -> bool {
    &&& is_segment(m, id)
    &&& forall|other: EntityId|
        is_segment(m, other) ==> m[other].tail.unwrap().segment <= m[id].tail.unwrap().segment
}

/// The number after `n`, held at the end of the range of `u32`.
pub open spec fn next_segment(n: u32) -> u32 {
    if n < u32::MAX {
        (n + 1) as u32
    } else {
        n
    }
}

/// The request to grow a segment behind `end`, where `end` stands.
pub open spec fn growth_behind(m: Entities, end: EntityId) -> Event {
    Event::SpawnSnakeTail {
        ahead: end,
        pos: m[end].position.unwrap().0,
        segment: next_segment(m[end].tail.unwrap().segment),
    }
}

/// Whether `after` is `before` with one request appended for each meal, all
/// of them to grow behind `end`.
pub open spec fn growth_requested_behind(
    m: Entities,
    before: Seq<Event>,
    after: Seq<Event>,
    end: EntityId,
) -> bool {
    &&& is_tail_end(m, end)
    &&& after == before + Seq::new(meals(before).len(), |i: int| growth_behind(m, end))
}

/// What the request for growth does to the queue. Without a meal, or
/// without a segment to grow behind, nothing is appended. Otherwise every
/// meal adds one request to grow behind an end of the tail; where several
/// segments share the highest number, which of them is the store's choice.
pub open spec fn growth_requested(m: Entities, before: Seq<Event>, after: Seq<Event>) -> bool {
    if meals(before).len() == 0 || forall|id: EntityId| !is_segment(m, id) {
        after == before
    } else {
        exists|end: EntityId| #[trigger] growth_requested_behind(m, before, after, end)
    }
}

/// Queues, for every meal, the request to grow one segment behind the end
/// of the tail.
pub fn trigger_tail_spawn(game_world: &mut GameWorld)
    ensures
        final(game_world).entities() == old(game_world).entities(),
        growth_requested(
            old(game_world).entities(),
            old(game_world).events@,
            final(game_world).events@,
        ),
{
    let ghost m = game_world.entities();
    let ghost before = game_world.events@;
    let n: usize = game_world.events.len();
    let mut eaten: usize = 0;
    let mut i: usize = 0;
    proof {
        assert(before.take(0) =~= Seq::<Event>::empty());
        assert(meals(before.take(0)) =~= Seq::<EntityId>::empty());
    }
    while i < n
        invariant
            i <= n,
            n == before.len(),
            game_world.events@ == before,
            game_world.entities() == m,
            eaten == meals(before.take(i as int)).len(),
            eaten <= i,
        decreases n - i,
    {
        proof {
            before.lemma_filter_map_take_succ(|e: Event| meal_of(e), i as int);
        }
        match game_world.events[i] {
            Event::SnakeEatFood { .. } => {
                eaten += 1;
            },
            _ => {},
        }
        i += 1;
    }
    proof {
        assert(before.take(n as int) =~= before);
    }
    if eaten == 0 {
        return ;
    }
    let segments: Vec<EntityId> = select2::<Tail, Position>(&mut game_world.world);
    let k: usize = segments.len();
    if k == 0 {
        assert forall|id: EntityId| !is_segment(m, id) by {
            if is_segment(m, id) {
                assert(segments@.contains(id));
            }
        }
        return ;
    }
    let mut end: EntityId = segments[0];
    assert(segments@.contains(end));
    let mut highest: u32 = get::<Tail>(&mut game_world.world, end).unwrap().segment;
    let mut j: usize = 1;
    while j < k
        invariant
            1 <= j <= k,
            k == segments@.len(),
            game_world.entities() == m,
            game_world.events@ == before,
            lists_exactly(segments@, holders2::<Tail, Position>(m)),
            is_segment(m, end),
            highest == m[end].tail.unwrap().segment,
            forall|t: int|
                0 <= t < j ==> m[#[trigger] segments@[t]].tail.unwrap().segment <= highest,
        decreases k - j,
    {
        let id: EntityId = segments[j];
        assert(segments@.contains(id));
        let number: u32 = get::<Tail>(&mut game_world.world, id).unwrap().segment;
        if number >= highest {
            end = id;
            highest = number;
        }
        j += 1;
    }
    proof {
        assert forall|other: EntityId| is_segment(m, other) implies m[other].tail.unwrap().segment
            <= highest by {
            assert(segments@.contains(other));
            let t = choose|t: int| 0 <= t < segments@.len() && segments@[t] == other;
            assert(segments@[t] == other);
        }
        assert(is_tail_end(m, end));
    }
    let pos: Position = get::<Position>(&mut game_world.world, end).unwrap();
    let segment: u32 = if highest < u32::MAX {
        highest + 1
    } else {
        highest
    };
    let mut pushed: usize = 0;
    proof {
        assert(before + Seq::new(0, |i: int| growth_behind(m, end)) =~= before);
    }
    while pushed < eaten
        invariant
            pushed <= eaten,
            game_world.entities() == m,
            pos == m[end].position.unwrap(),
            segment == next_segment(m[end].tail.unwrap().segment),
            game_world.events@ == before + Seq::new(
                pushed as nat,
                |i: int| growth_behind(m, end),
            ),
        decreases eaten - pushed,
    {
        game_world.events.push(Event::SpawnSnakeTail { ahead: end, pos: pos.0, segment });
        pushed += 1;
        proof {
            assert(game_world.events@ =~= before + Seq::new(
                pushed as nat,
                |i: int| growth_behind(m, end),
            ));
        }
    }
    proof {
        assert(growth_requested_behind(m, before, game_world.events@, end));
        assert(is_segment(m, end));
    }
}

/// The name of the material and of the mesh of a segment.
pub open spec fn tail_asset() -> Seq<char> {
    "Tail"@
}

/// What a new segment carries: the number and the neighbour the request
/// names, the position it names, and the marks of a part of the snake.
pub open spec fn segment_for(e: Event) -> Components {
    match e {
        Event::SpawnSnakeTail { ahead, pos, segment } => Components::segment(
            Tail { segment, ahead },
            tail_asset(),
            tail_asset(),
            Collision { kind: CollisionKind::Snake },
            Position(pos),
        ),
        _ => Components::none(),
    }
}

/// The store `m` after the entities `ids` were spawned, one after another,
/// for the first requests of `requests`.
pub open spec fn grown(m: Entities, ids: Seq<EntityId>, requests: Seq<Event>) -> Entities
    decreases ids.len(),
{
    if ids.len() == 0 {
        m
    } else {
        grown(m, ids.drop_last(), requests).insert(
            ids.last(),
            segment_for(requests[ids.len() - 1]),
        )
    }
}

/// Whether `ids` are distinct handles, none of them alive in `m`.
pub open spec fn fresh(m: Entities, ids: Seq<EntityId>) -> bool {
    &&& ids.no_duplicates()
    &&& forall|i: int| 0 <= i < ids.len() ==> !m.dom().contains(#[trigger] ids[i])
}

/// Whether `after` is `m` with one new segment, under the handles `ids`,
/// for each request to grow in `events`.
pub open spec fn tails_spawned_as(
    m: Entities,
    events: Seq<Event>,
    after: Entities,
    ids: Seq<EntityId>,
) -> bool {
    &&& ids.len() == growths(events).len()
    &&& fresh(m, ids)
    &&& after == grown(m, ids, growths(events))
}

/// What spawning the tail does to the store: one new segment for each
/// request to grow, in the order of the requests, under handles that the
/// store picks.
pub open spec fn tails_spawned(m: Entities, events: Seq<Event>, after: Entities) -> bool {
    exists|ids: Seq<EntityId>| #[trigger] tails_spawned_as(m, events, after, ids)
}

/// Growing by `ids` adds exactly these handles to the store.
pub proof fn lemma_grown_dom(m: Entities, ids: Seq<EntityId>, requests: Seq<Event>)
    requires
        m.dom().finite(),
        fresh(m, ids),
    ensures
        grown(m, ids, requests).dom() == m.dom().union(ids.to_set()),
        grown(m, ids, requests).dom().finite(),
        grown(m, ids, requests).dom().len() == m.dom().len() + ids.len(),
    decreases ids.len(),
{
    if ids.len() == 0 {
        assert(m.dom().union(ids.to_set()) =~= m.dom());
    } else {
        let front = ids.drop_last();
        lemma_grown_dom(m, front, requests);
        assert(ids =~= front.push(ids.last()));
        front.lemma_push_to_set_commute(ids.last());
        assert(grown(m, ids, requests).dom() =~= m.dom().union(ids.to_set()));
        assert(!front.to_set().contains(ids.last())) by {
            if front.contains(ids.last()) {
                let j = choose|j: int| 0 <= j < front.len() && front[j] == ids.last();
                assert(ids[j] == ids[ids.len() - 1]);
            }
        }
        assert(!m.dom().contains(ids[ids.len() - 1]));
    }
}

/// Spawns one new segment for every request to grow in the queue.
pub fn spawn_tail_system(game_world: &mut GameWorld)
    requires
        has_room(old(game_world).entities(), growths(old(game_world).events@).len()),
    ensures
        tails_spawned(
            old(game_world).entities(),
            old(game_world).events@,
            final(game_world).entities(),
        ),
        final(game_world).events@ == old(game_world).events@,
{
    let ghost m = game_world.entities();
    let ghost events = game_world.events@;
    let ghost requests = growths(events);
    let ghost mut ids: Seq<EntityId> = Seq::empty();
    let n: usize = game_world.events.len();
    let mut i: usize = 0;
    proof {
        reveal(Seq::filter);
        assert(events.take(0) =~= Seq::<Event>::empty());
    }
    while i < n
        invariant
            i <= n,
            n == events.len(),
            game_world.events@ == events,
            requests == growths(events),
            has_room(m, requests.len()),
            ids.len() == growths(events.take(i as int)).len(),
            fresh(m, ids),
            game_world.entities() == grown(m, ids, requests),
        decreases n - i,
    {
        let e: Event = game_world.events[i];
        proof {
            events.lemma_take_succ_push(i as int);
            events.take(i as int).lemma_filter_push(e, wants_growth());
            lemma_filter_prefix(events, wants_growth(), i as int + 1);
            lemma_grown_dom(m, ids, requests);
        }
        match e {
            Event::SpawnSnakeTail { ahead, pos, segment } => {
                proof {
                    let sooner = growths(events.take(i as int));
                    let now = growths(events.take(i as int + 1));
                    assert(now == sooner.push(e));
                    assert(now[ids.len() as int] == e);
                    assert(requests.take(now.len() as int)[ids.len() as int] == e);
                }
                let id: EntityId = spawn_segment(
                    &mut game_world.world,
                    Tail { segment, ahead },
                    Material("Tail".to_string()),
                    Mesh("Tail".to_string()),
                    Collision::snake(),
                    Position(pos),
                );
                proof {
                    let longer = ids.push(id);
                    assert(longer.drop_last() =~= ids);
                    assert(fresh(m, longer)) by {
                        assert forall|a: int, b: int|
                            0 <= a < longer.len() && 0 <= b < longer.len() && a != b implies longer[a]
                            != longer[b] by {
                            if a < ids.len() {
                                assert(ids.to_set().contains(ids[a]));
                            }
                            if b < ids.len() {
                                assert(ids.to_set().contains(ids[b]));
                            }
                        }
                    }
                    ids = longer;
                }
            },
            _ => {},
        }
        i += 1;
    }
    proof {
        assert(events.take(n as int) =~= events);
        assert(tails_spawned_as(m, events, game_world.entities(), ids));
    }
}

} // verus!
