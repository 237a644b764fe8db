//! The movement pipeline: direction intake, velocity synchronization, the
//! position update and the tail that follows.

use vstd::prelude::*;
use crate::components::{
    Direction, EntityId, GridVec, HeadDirection, Input, Position, Snake, Tail, Velocity,
};
use crate::store::{
    Components, Entities, get, holders2, holders3, lemma_overlay_end, lemma_overlay_start,
    lemma_overlay_step, lists_exactly, overlay, overwrite, select2, select3, stored,
};
use crate::systems::GameWorld;

verus! {

/// The direction a head takes: the one the input asks for, unless the input
/// asks for none or for the exact reverse of the current velocity.
pub open spec fn steer(current: Direction, velocity: GridVec, input: Input) -> Direction {
    match input.wanted() {
        Some(d) => if d.unit().is_negation_of(velocity) {
            current
        } else {
            d
        },
        None => current,
    }
}

/// What direction intake does to one entity: it steers a head that has a
/// velocity and a direction, and leaves every other entity alone.
pub open spec fn steered(c: Components, input: Input) -> Components {
    if c.snake.is_some() && c.velocity.is_some() && c.head_direction.is_some() {
        Components {
            head_direction: Some(
                HeadDirection(steer(c.head_direction.unwrap().0, c.velocity.unwrap().0, input)),
            ),
            ..c
        }
    } else {
        c
    }
}

/// Direction intake: every head takes the direction the input asks for,
/// unless that would reverse it.
pub fn update_input(game_world: &mut GameWorld, input: &Input)
    ensures
        final(game_world).entities() == old(game_world).entities().map_values(
            |c: Components| steered(c, *input),
        ),
        final(game_world).events@ == old(game_world).events@,
{
    let ghost m = game_world.entities();
    let ghost change = |id: EntityId| steered(m[id], *input);
    let heads: Vec<EntityId> = select3::<Velocity, HeadDirection, Snake>(&mut game_world.world);
    let n: usize = heads.len();
    let mut i: usize = 0;
    proof {
        lemma_overlay_start(m, change);
        assert(heads@.take(0) =~= Seq::<EntityId>::empty());
    }
    while i < n
        invariant
            i <= n,
            n == heads@.len(),
            lists_exactly(heads@, holders3::<Velocity, HeadDirection, Snake>(m)),
            change == |id: EntityId| steered(m[id], *input),
            game_world.entities() == overlay(m, heads@.take(i as int), change),
            game_world.events@ == old(game_world).events@,
        decreases n - i,
    {
        let id: EntityId = heads[i];
        proof {
            assert(heads@.contains(id));
            lemma_overlay_step(m, heads@, i as int, change);
        }
        let vel: Velocity = get::<Velocity>(&mut game_world.world, id).unwrap();
        let dir: HeadDirection = get::<HeadDirection>(&mut game_world.world, id).unwrap();
        let mut next: Direction = dir.0;
        match input.direction() {
            Some(d) => {
                if !d.velocity().negates(vel.0) {
                    next = d;
                }
            },
            None => {},
        }
        overwrite::<HeadDirection>(&mut game_world.world, id, HeadDirection(next));
        i += 1;
    }
    proof {
        assert(heads@.take(n as int) =~= heads@);
        lemma_overlay_end(m, heads@, change);
        assert(game_world.entities() =~= m.map_values(|c: Components| steered(c, *input)));
    }
}

/// What velocity synchronization does to one entity: an entity with a
/// velocity and a direction gets the unit vector of its direction.
pub open spec fn synced(c: Components) -> Components {
    if c.velocity.is_some() && c.head_direction.is_some() {
        Components { velocity: Some(Velocity(c.head_direction.unwrap().0.unit())), ..c }
    } else {
        c
    }
}

/// Velocity synchronization: the velocity of every head becomes the unit
/// vector of its direction.
pub fn update_velocity_direction(game_world: &mut GameWorld)
    ensures
        final(game_world).entities() == old(game_world).entities().map_values(
            |c: Components| synced(c),
        ),
        final(game_world).events@ == old(game_world).events@,
{
    let ghost m = game_world.entities();
    let ghost change = |id: EntityId| synced(m[id]);
    let movers: Vec<EntityId> = select2::<Velocity, HeadDirection>(&mut game_world.world);
    let n: usize = movers.len();
    let mut i: usize = 0;
    proof {
        lemma_overlay_start(m, change);
        assert(movers@.take(0) =~= Seq::<EntityId>::empty());
    }
    while i < n
        invariant
            i <= n,
            n == movers@.len(),
            lists_exactly(movers@, holders2::<Velocity, HeadDirection>(m)),
            change == |id: EntityId| synced(m[id]),
            game_world.entities() == overlay(m, movers@.take(i as int), change),
            game_world.events@ == old(game_world).events@,
        decreases n - i,
    {
        let id: EntityId = movers[i];
        proof {
            assert(movers@.contains(id));
            lemma_overlay_step(m, movers@, i as int, change);
        }
        let dir: HeadDirection = get::<HeadDirection>(&mut game_world.world, id).unwrap();
        overwrite::<Velocity>(&mut game_world.world, id, Velocity(dir.0.velocity()));
        i += 1;
    }
    proof {
        assert(movers@.take(n as int) =~= movers@);
        lemma_overlay_end(m, movers@, change);
        assert(game_world.entities() =~= m.map_values(|c: Components| synced(c)));
    }
}

/// What the position update does to one entity: a head with a position
/// and a velocity moves by its velocity, and every other entity stays where
/// it is.
pub open spec fn moved(c: Components) -> Components {
    if c.snake.is_some() && c.position.is_some() && c.velocity.is_some() {
        Components { position: Some(Position(c.position.unwrap().0.plus(c.velocity.unwrap().0))), ..c }
    } else {
        c
    }
}

/// The position update: every head moves one step along its velocity.
/// Nothing else moves, whatever it carries.
pub fn movement_system(game_world: &mut GameWorld)
    ensures
        final(game_world).entities() == old(game_world).entities().map_values(
            |c: Components| moved(c),
        ),
        final(game_world).events@ == old(game_world).events@,
{
    let ghost m = game_world.entities();
    let ghost change = |id: EntityId| moved(m[id]);
    let movers: Vec<EntityId> = select3::<Snake, Position, Velocity>(&mut game_world.world);
    let n: usize = movers.len();
    let mut i: usize = 0;
    proof {
        lemma_overlay_start(m, change);
        assert(movers@.take(0) =~= Seq::<EntityId>::empty());
    }
    while i < n
        invariant
            i <= n,
            n == movers@.len(),
            lists_exactly(movers@, holders3::<Snake, Position, Velocity>(m)),
            change == |id: EntityId| moved(m[id]),
            game_world.entities() == overlay(m, movers@.take(i as int), change),
            game_world.events@ == old(game_world).events@,
        decreases n - i,
    {
        let id: EntityId = movers[i];
        proof {
            assert(movers@.contains(id));
            lemma_overlay_step(m, movers@, i as int, change);
        }
        let pos: Position = get::<Position>(&mut game_world.world, id).unwrap();
        let vel: Velocity = get::<Velocity>(&mut game_world.world, id).unwrap();
        overwrite::<Position>(&mut game_world.world, id, Position(pos.0.add(vel.0)));
        i += 1;
    }
    proof {
        assert(movers@.take(n as int) =~= movers@);
        lemma_overlay_end(m, movers@, change);
        assert(game_world.entities() =~= m.map_values(|c: Components| moved(c)));
    }
}

/// Whether every segment follows an entity that has a position.
pub open spec fn followable(m: Entities) -> bool {
    forall|id: EntityId| #[trigger]
        m.dom().contains(id) && m[id].tail.is_some() ==> stored::<Position>(
            m,
            m[id].tail.unwrap().ahead,
        ).is_some()
}

/// What tail-follow does to the entity `id` of the store `m`: a segment
/// with a position takes the position that the entity ahead of it has in
/// `m`.
pub open spec fn followed(m: Entities, id: EntityId) -> Components {
    if m[id].tail.is_some() && m[id].position.is_some() {
        Components { position: m[m[id].tail.unwrap().ahead].position, ..m[id] }
    } else {
        m[id]
    }
}

/// The store after tail-follow: every segment stands where the entity
/// ahead of it stood before.
pub open spec fn tail_followed(m: Entities) -> Entities {
    Map::new(|id: EntityId| m.dom().contains(id), |id: EntityId| followed(m, id))
}

/// Tail-follow: every segment takes the position that the entity ahead of
/// it had when the system started, so that each trails its neighbour by one
/// step.
pub fn tail_movement_system(game_world: &mut GameWorld)
    requires
        followable(old(game_world).entities()),
    ensures
        final(game_world).entities() == tail_followed(old(game_world).entities()),
        final(game_world).events@ == old(game_world).events@,
{
    let ghost m = game_world.entities();
    let ghost change = |id: EntityId| followed(m, id);
    let followers: Vec<EntityId> = select2::<Tail, Position>(&mut game_world.world);
    let n: usize = followers.len();
    let mut targets: Vec<Position> = Vec::new();
    let mut i: usize = 0;
    while i < n
        invariant
            i <= n,
            n == followers@.len(),
            targets@.len() == i,
            followable(m),
            game_world.entities() == m,
            game_world.events@ == old(game_world).events@,
            lists_exactly(followers@, holders2::<Tail, Position>(m)),
            forall|j: int|
                0 <= j < i ==> Some(#[trigger] targets@[j]) == m[m[followers@[j]].tail.unwrap().ahead].position,
        decreases n - i,
    {
        let id: EntityId = followers[i];
        assert(followers@.contains(id));
        let tail: Tail = get::<Tail>(&mut game_world.world, id).unwrap();
        let target: Position = get::<Position>(&mut game_world.world, tail.ahead).unwrap();
        targets.push(target);
        i += 1;
    }
    let mut k: usize = 0;
    proof {
        lemma_overlay_start(m, change);
        assert(followers@.take(0) =~= Seq::<EntityId>::empty());
    }
    while k < n
        invariant
            k <= n,
            n == followers@.len(),
            targets@.len() == n,
            lists_exactly(followers@, holders2::<Tail, Position>(m)),
            forall|j: int|
                0 <= j < n ==> Some(#[trigger] targets@[j]) == m[m[followers@[j]].tail.unwrap().ahead].position,
            change == |id: EntityId| followed(m, id),
            game_world.entities() == overlay(m, followers@.take(k as int), change),
            game_world.events@ == old(game_world).events@,
        decreases n - k,
    {
        let id: EntityId = followers[k];
        proof {
            assert(followers@.contains(id));
            lemma_overlay_step(m, followers@, k as int, change);
        }
        overwrite::<Position>(&mut game_world.world, id, targets[k]);
        k += 1;
    }
    proof {
        assert(followers@.take(n as int) =~= followers@);
        lemma_overlay_end(m, followers@, change);
    }
}

} // verus!
