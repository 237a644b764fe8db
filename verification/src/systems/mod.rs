//! The systems: one verified function for each step of a tick, and the game
//! state they work on.

use vstd::prelude::*;
use crate::components::{Collision, CollisionKind, EntityId, Position, Tail};
use crate::events::Event;
use crate::store::{
    Components, Entities, entities_of, ENTITY_LIMIT, get, has_room, holders, lists_exactly, select,
};

pub mod collision;
pub mod draw;
pub mod growth;
pub mod lifecycle;
pub mod movement;
pub mod score;
pub mod tick;

pub use collision::{handle_collision_system, head_collision_system};
pub use draw::{debug_render_cmds, draw_text, gather_render_cmds};
pub use growth::{despawn_food_system, spawn_tail_system, trigger_tail_spawn};
pub use lifecycle::{add_food_at, add_food_system, create_snake_system, game_over_system};
pub use movement::{
    movement_system, tail_movement_system, update_input, update_velocity_direction,
};
pub use score::update_score_system;
pub use tick::tick;

verus! {

/// The state of a game: the store of its entities and the queue of events.
pub struct GameWorld {
    pub world: hecs::World,
    pub events: Vec<Event>,
}

/// Whether the head can eat an entity with these components.
pub open spec fn edible(c: Components) -> bool {
    c.collision == Some(Collision { kind: CollisionKind::Food })
}

/// Whether a segment may follow `a`: `a` is alive and has a position, and
/// the head cannot eat it.
pub open spec fn anchors(m: Entities, a: EntityId) -> bool {
    &&& m.dom().contains(a)
    &&& m[a].position.is_some()
    &&& !edible(m[a])
}

/// What every tick expects of the store and keeps true of it: the store is
/// finite, every segment follows an entity that can be followed, and no
/// segment can be eaten.
pub open spec fn well_formed(m: Entities) -> bool {
    &&& m.dom().finite()
    &&& forall|id: EntityId| #[trigger]
        m.dom().contains(id) && m[id].tail.is_some() ==> !edible(m[id]) && anchors(
            m,
            m[id].tail.unwrap().ahead,
        )
}

/// Whether a collision component, if there is one, marks food.
fn is_food(collision: Option<Collision>) -> (b: bool)
    ensures
        b == (collision == Some(Collision { kind: CollisionKind::Food })),
{
    match collision {
        Some(c) => match c.kind {
            CollisionKind::Food => true,
            CollisionKind::Snake => false,
        },
        None => false,
    }
}

impl GameWorld {
    /// The live entities and what each of them carries.
    pub open spec fn entities(&self) -> Entities {
        entities_of(self.world)
    }

    /// Whether the store is one the systems can run on.
    pub open spec fn wf(&self) -> bool {
        well_formed(self.entities())
    }

    /// Whether a tick can run on this game: the store is well formed and
    /// has room for one more entity.
    pub open spec fn can_tick(&self) -> bool {
        self.wf() && has_room(self.entities(), 1)
    }

    /// Tells whether a tick can run on this game, by looking at every
    /// segment of the store and at what it follows.
    pub fn ready(&mut self) -> (ok: bool)
        ensures
            ok == old(self).can_tick(),
            final(self).entities() == old(self).entities(),
            final(self).events@ == old(self).events@,
    {
        let ghost m = self.entities();
        if self.world.len() as u64 >= ENTITY_LIMIT {
            return false;
        }
        let tails: Vec<EntityId> = select::<Tail>(&mut self.world);
        let n: usize = tails.len();
        let mut i: usize = 0;
        while i < n
            invariant
                i <= n,
                n == tails@.len(),
                self.entities() == m,
                m == old(self).entities(),
                self.events@ == old(self).events@,
                lists_exactly(tails@, holders::<Tail>(m)),
                forall|j: int|
                    0 <= j < i ==> !edible(m[#[trigger] tails@[j]]) && anchors(
                        m,
                        m[tails@[j]].tail.unwrap().ahead,
                    ),
            decreases n - i,
        {
            let id: EntityId = tails[i];
            assert(tails@.contains(id));
            let tail: Tail = get::<Tail>(&mut self.world, id).unwrap();
            let own: Option<Collision> = get::<Collision>(&mut self.world, id);
            let place: Option<Position> = get::<Position>(&mut self.world, tail.ahead);
            let other: Option<Collision> = get::<Collision>(&mut self.world, tail.ahead);
            if is_food(own) || place.is_none() || is_food(other) {
                assert(m.dom().contains(id) && m[id].tail.is_some());
                return false;
            }
            i += 1;
        }
        proof {
            assert forall|id: EntityId| #[trigger]
                m.dom().contains(id) && m[id].tail.is_some() implies !edible(m[id]) && anchors(
                m,
                m[id].tail.unwrap().ahead,
            ) by {
                assert(tails@.contains(id));
                let j = choose|j: int| 0 <= j < tails@.len() && tails@[j] == id;
                assert(tails@[j] == id);
            }
        }
        true
    }

    /// A game without entities and without events.
    pub fn new() -> (game_world: GameWorld)
        ensures
            game_world.entities() == Entities::empty(),
            game_world.events@ == Seq::<Event>::empty(),
            game_world.wf(),
    {
        GameWorld { world: hecs::World::new(), events: Vec::new() }
    }
}

} // verus!
