//! Collision detection and resolution.

use vstd::prelude::*;
use crate::components::{Collision, CollisionKind, EntityId, GridVec, Position, Snake, Velocity};
use crate::events::Event;
use crate::seqs::lemma_filter_distinct;
use crate::store::{
    Components, Entities, get, holders2, holders3, lists_exactly, select2, select3, stored,
};
use crate::systems::GameWorld;

verus! {

/// The cell an entity with a position and a velocity enters next.
pub open spec fn next_cell(c: Components) -> GridVec {
    c.position.unwrap().0.plus(c.velocity.unwrap().0)
}

/// Whether `id` is a head whose next cell is known: it carries the marker
/// of the snake, a position and a velocity.
pub open spec fn is_head(m: Entities, id: EntityId) -> bool {
    holders3::<Snake, Position, Velocity>(m).contains(id)
}

/// The test that an entity stands on `cell`.
pub open spec fn stands_on(m: Entities, cell: GridVec) -> spec_fn(EntityId) -> bool {
    |id: EntityId| m[id].position == Some(Position(cell))
}

/// The entities on `cell` that the head can run into.
pub open spec fn occupants(m: Entities, cell: GridVec) -> Set<EntityId> {
    Set::new(
        |id: EntityId|
            m.dom().contains(id) && m[id].collision.is_some() && m[id].position == Some(
                Position(cell),
            ),
    )
}

/// The event that records `source` running into `target`.
pub open spec fn collision_with(m: Entities, source: EntityId, target: EntityId) -> Event {
    Event::Collision {
        source,
        target,
        pos: m[target].position.unwrap().0,
        kind: m[target].collision.unwrap().kind,
    }
}

/// Whether `after` is `before` with one collision appended for each of
/// `targets`, which are the occupants of the cell that `head` enters next.
pub open spec fn detection_by(
    m: Entities,
    before: Seq<Event>,
    after: Seq<Event>,
    head: EntityId,
    targets: Seq<EntityId>,
) -> bool {
    &&& is_head(m, head)
    &&& lists_exactly(targets, occupants(m, next_cell(m[head])))
    &&& after == before + targets.map_values(|t: EntityId| collision_with(m, head, t))
}

/// What detection does to the queue. Without a head nothing is appended.
/// With one, every occupant of the head's next cell is recorded once; the
/// order of the records, and which head counts where there are several, is
/// the store's.
pub open spec fn detection(m: Entities, before: Seq<Event>, after: Seq<Event>) -> bool {
    if forall|id: EntityId| !is_head(m, id) {
        after == before
    } else {
        exists|head: EntityId, targets: Seq<EntityId>| #[trigger]
            detection_by(m, before, after, head, targets)
    }
}

/// Records, for the head, every entity that stands on the cell the head
/// enters next and can be run into.
pub fn head_collision_system(game_world: &mut GameWorld)
    ensures
        final(game_world).entities() == old(game_world).entities(),
        detection(old(game_world).entities(), old(game_world).events@, final(game_world).events@),
{
    let ghost before = game_world.events@;
    let ghost m = game_world.entities();
    let heads: Vec<EntityId> = select3::<Snake, Position, Velocity>(&mut game_world.world);
    if heads.len() == 0 {
        assert forall|id: EntityId| !is_head(m, id) by {
            if is_head(m, id) {
                assert(heads@.contains(id));
            }
        }
        return ;
    }
    let source: EntityId = heads[0];
    assert(heads@.contains(source));
    let source_pos: Position = get::<Position>(&mut game_world.world, source).unwrap();
    let source_vel: Velocity = get::<Velocity>(&mut game_world.world, source).unwrap();
    let cell: GridVec = source_pos.0.add(source_vel.0);
    let candidates: Vec<EntityId> = select2::<Position, Collision>(&mut game_world.world);
    let ghost mut targets: Seq<EntityId> = Seq::empty();
    let n: usize = candidates.len();
    let mut i: usize = 0;
    proof {
        reveal(Seq::filter);
        assert(candidates@.take(0) =~= Seq::<EntityId>::empty());
        assert(before + targets.map_values(|t: EntityId| collision_with(m, source, t)) =~= before);
    }
    while i < n
        invariant
            i <= n,
            n == candidates@.len(),
            game_world.entities() == m,
            lists_exactly(candidates@, holders2::<Position, Collision>(m)),
            targets == candidates@.take(i as int).filter(stands_on(m, cell)),
            game_world.events@ == before + targets.map_values(
                |t: EntityId| collision_with(m, source, t),
            ),
        decreases n - i,
    {
        let target: EntityId = candidates[i];
        assert(candidates@.contains(target));
        let target_pos: Position = get::<Position>(&mut game_world.world, target).unwrap();
        let col: Collision = get::<Collision>(&mut game_world.world, target).unwrap();
        proof {
            candidates@.lemma_take_succ_push(i as int);
            candidates@.take(i as int).lemma_filter_push(target, stands_on(m, cell));
        }
        if target_pos.0 == cell {
            proof {
                targets.lemma_push_map_commute(
                    |t: EntityId| collision_with(m, source, t),
                    target,
                );
                targets = targets.push(target);
            }
            game_world.events.push(
                Event::Collision { target, source, pos: target_pos.0, kind: col.kind },
            );
        }
        i += 1;
    }
    proof {
        assert(candidates@.take(n as int) =~= candidates@);
        lemma_filter_distinct(candidates@, stands_on(m, cell));
        assert(detection_by(m, before, game_world.events@, source, targets));
        assert(is_head(m, source));
    }
}

/// The events of a queue that are not collisions, in their order.
pub open spec fn bystanders(events: Seq<Event>) -> Seq<Event> {
    events.filter(|e: Event| !(e is Collision))
}

/// The collisions of a queue, in their order.
pub open spec fn collisions(events: Seq<Event>) -> Seq<Event> {
    events.filter(|e: Event| e is Collision)
}

/// What a collision leads to: the end of the game where the head ran into
/// the snake, a meal where it ran into food.
pub open spec fn outcome(e: Event, m: Entities) -> Event {
    match e {
        Event::Collision { kind: CollisionKind::Snake, .. } => Event::GameOver,
        Event::Collision { kind: CollisionKind::Food, target, .. } => Event::SnakeEatFood {
            entity: target,
            pos: m[target].position.unwrap().0,
        },
        _ => e,
    }
}

/// The queue after resolution: what was no collision stays, in its order,
/// and the outcome of each collision follows, in the collisions' order.
pub open spec fn resolution(events: Seq<Event>, m: Entities) -> Seq<Event> {
    bystanders(events) + collisions(events).map_values(|e: Event| outcome(e, m))
}

/// Whether every collision with food names an entity that has a position.
pub open spec fn resolvable(events: Seq<Event>, m: Entities) -> bool {
    forall|i: int|
        0 <= i < events.len() ==> match #[trigger] events[i] {
            Event::Collision { kind: CollisionKind::Food, target, .. } => stored::<Position>(
                m,
                target,
            ).is_some(),
            _ => true,
        }
}

/// Takes every collision out of the queue and appends what it leads to.
pub fn handle_collision_system(game_world: &mut GameWorld)
    requires
        resolvable(old(game_world).events@, old(game_world).entities()),
    ensures
        final(game_world).entities() == old(game_world).entities(),
        final(game_world).events@ == resolution(
            old(game_world).events@,
            old(game_world).entities(),
        ),
{
    let ghost before = game_world.events@;
    let ghost m = game_world.entities();
    let mut hits: Vec<Event> = Vec::new();
    let mut rest: Vec<Event> = Vec::new();
    let n: usize = game_world.events.len();
    let mut i: usize = 0;
    proof {
        reveal(Seq::filter);
        assert(before.take(0) =~= Seq::<Event>::empty());
    }
    while i < n
        invariant
            i <= n,
            n == before.len(),
            game_world.events@ == before,
            game_world.entities() == m,
            hits@ == collisions(before.take(i as int)),
            rest@ == bystanders(before.take(i as int)),
        decreases n - i,
    {
        let e: Event = game_world.events[i];
        proof {
            before.lemma_take_succ_push(i as int);
            before.take(i as int).lemma_filter_push(e, |e: Event| e is Collision);
            before.take(i as int).lemma_filter_push(e, |e: Event| !(e is Collision));
        }
        match e {
            Event::Collision { .. } => hits.push(e),
            _ => rest.push(e),
        }
        i += 1;
    }
    proof {
        assert(before.take(n as int) =~= before);
    }
    game_world.events = rest;
    let k: usize = hits.len();
    let mut j: usize = 0;
    while j < k
        invariant
            j <= k,
            k == hits@.len(),
            hits@ == collisions(before),
            resolvable(before, m),
            game_world.entities() == m,
            game_world.events@ == bystanders(before) + hits@.take(j as int).map_values(
                |e: Event| outcome(e, m),
            ),
        decreases k - j,
    {
        let hit: Event = hits[j];
        proof {
            before.lemma_filter_pred(|e: Event| e is Collision, j as int);
            assert(hits@.contains(hit));
            before.lemma_filter_contains_rev(|e: Event| e is Collision, hit);
            let at: int = choose|at: int| 0 <= at < before.len() && before[at] == hit;
            assert(before[at] == hit);
            hits@.lemma_take_succ_push(j as int);
            hits@.take(j as int).lemma_push_map_commute(|e: Event| outcome(e, m), hit);
        }
        match hit {
            Event::Collision { kind: CollisionKind::Snake, .. } => {
                game_world.events.push(Event::GameOver);
            },
            Event::Collision { kind: CollisionKind::Food, target, .. } => {
                let pos: Position = get::<Position>(&mut game_world.world, target).unwrap();
                game_world.events.push(Event::SnakeEatFood { entity: target, pos: pos.0 });
            },
            _ => {},
        }
        j += 1;
    }
    proof {
        assert(hits@.take(k as int) =~= hits@);
    }
}

} // verus!
