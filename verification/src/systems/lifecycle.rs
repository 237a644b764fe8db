//! The start of a game, its end, and the food that appears in between.

use vstd::prelude::*;
use crate::components::{
    Collision, CollisionKind, Direction, EntityId, Food, GridVec, HeadDirection, Material, Mesh,
    Position, Snake, Tail, Velocity,
};
use crate::events::Event;
use crate::random::gen_range;
use crate::store::{
    Components, Entities, has_room, holders, select, spawn_head, spawn_morsel, spawn_segment,
};
use crate::systems::growth::tail_asset;
use crate::systems::GameWorld;

verus! {

/// The name of the material and of the mesh of the head.
pub open spec fn snake_asset() -> Seq<char> {
    "Snake"@
}

/// The name of the material and of the mesh of food.
pub open spec fn food_asset() -> Seq<char> {
    "Food"@
}

/// The head a game starts with: at the origin, moving up.
pub open spec fn initial_head() -> Components {
    Components::head(
        Position(GridVec { x: 0, y: 0 }),
        Velocity(GridVec { x: 0, y: 1 }),
        HeadDirection(Direction::Up),
        snake_asset(),
        snake_asset(),
    )
}

/// The segment a game starts with: the first, one cell below the head.
pub open spec fn initial_tail(head: EntityId) -> Components {
    Components::segment(
        Tail { segment: 1, ahead: head },
        tail_asset(),
        tail_asset(),
        Collision { kind: CollisionKind::Snake },
        Position(GridVec { x: 0, y: -1i32 }),
    )
}

/// Whether `after` is `before` with a new snake in it: the head under the
/// handle `head`, its first segment under `tail`.
pub open spec fn snake_created_as(
    before: Entities,
    after: Entities,
    head: EntityId,
    tail: EntityId,
) -> bool {
    &&& head != tail
    &&& !before.dom().contains(head)
    &&& !before.dom().contains(tail)
    &&& after == before.insert(head, initial_head()).insert(tail, initial_tail(head))
}

/// Whether `after` is `before` with a new snake in it, under handles that
/// the store picked.
pub open spec fn snake_created(before: Entities, after: Entities) -> bool {
    exists|head: EntityId, tail: EntityId| #[trigger] snake_created_as(before, after, head, tail)
}

/// Spawns the snake a game starts with: the head at the origin, moving up,
/// and the first segment below it.
pub fn create_snake_system(game_world: &mut GameWorld)
    requires
        has_room(old(game_world).entities(), 2),
    ensures
        snake_created(old(game_world).entities(), final(game_world).entities()),
        final(game_world).events@ == old(game_world).events@,
{
    let ghost m = game_world.entities();
    let ahead: EntityId = spawn_head(
        &mut game_world.world,
        Snake,
        Position(GridVec::new(0, 0)),
        Velocity(GridVec::new(0, 1)),
        HeadDirection::default(),
        Material("Snake".to_string()),
        Mesh("Snake".to_string()),
    );
    let tail = Tail { segment: 1, ahead };
    let id: EntityId = spawn_segment(
        &mut game_world.world,
        tail,
        Material("Tail".to_string()),
        Mesh("Tail".to_string()),
        Collision::snake(),
        Position(GridVec::new(0, -1)),
    );
    proof {
        assert(snake_created_as(m, game_world.entities(), ahead, id));
    }
}

/// Whether a queue holds the end of the game.
pub open spec fn is_over(events: Seq<Event>) -> bool {
    exists|i: int| 0 <= i < events.len() && events[i] is GameOver
}

/// The end of the game: where the queue holds it, the store is emptied and
/// the snake of a new game is spawned. Returns whether that happened.
pub fn game_over_system(game_world: &mut GameWorld) -> (over: bool)
    ensures
        over == is_over(old(game_world).events@),
        over ==> snake_created(Entities::empty(), final(game_world).entities()),
        !over ==> final(game_world).entities() == old(game_world).entities(),
        final(game_world).events@ == old(game_world).events@,
{
    let n: usize = game_world.events.len();
    let mut found: bool = false;
    let mut i: usize = 0;
    while i < n
        invariant
            i <= n,
            n == game_world.events@.len(),
            game_world.events@ == old(game_world).events@,
            game_world.entities() == old(game_world).entities(),
            found == is_over(game_world.events@.take(i as int)),
        decreases n - i,
    {
        proof {
            let now = game_world.events@.take(i as int);
            let next = game_world.events@.take(i as int + 1);
            if is_over(now) {
                let j = choose|j: int| 0 <= j < now.len() && now[j] is GameOver;
                assert(next[j] is GameOver);
            }
            if is_over(next) {
                let j = choose|j: int| 0 <= j < next.len() && next[j] is GameOver;
                if j < i {
                    assert(now[j] is GameOver);
                }
            }
            assert(next[i as int] == game_world.events@[i as int]);
        }
        match game_world.events[i] {
            Event::GameOver => {
                found = true;
            },
            _ => {},
        }
        i += 1;
    }
    proof {
        assert(game_world.events@.take(n as int) =~= game_world.events@);
    }
    if found {
        game_world.world.clear();
        proof {
            assert(Entities::empty().dom().len() == 0);
        }
        create_snake_system(game_world);
        return true;
    }
    false
}

/// How many pieces of food the store holds.
pub open spec fn food_count(m: Entities) -> nat {
    holders::<Food>(m).len()
}

/// The most food that is ever added to a store.
pub const FOOD_LIMIT: usize = 10;

/// The field that food appears on.
pub open spec fn in_field(p: GridVec) -> bool {
    -24 <= p.x <= 24 && -15 <= p.y <= 15
}

/// What a piece of food at `pos` carries.
pub open spec fn food_at(pos: GridVec) -> Components {
    Components::morsel(
        Position(pos),
        Collision { kind: CollisionKind::Food },
        food_asset(),
        food_asset(),
    )
}

/// Whether `after` is `before` with a new piece of food at `pos`.
pub open spec fn food_added(before: Entities, after: Entities, pos: GridVec) -> bool {
    exists|id: EntityId| !before.dom().contains(id) && after == #[trigger] before.insert(id, food_at(pos))
}

/// Whether `after` is what adding food at `pos` makes of `before`: one
/// more piece while there are fewer than the limit, nothing otherwise.
pub open spec fn fed_at(before: Entities, after: Entities, pos: GridVec) -> bool {
    if food_count(before) < FOOD_LIMIT {
        food_added(before, after, pos)
    } else {
        after == before
    }
}

/// Feeding a finite store never takes its food beyond the limit.
pub proof fn lemma_feeding_bound(before: Entities, after: Entities, pos: GridVec)
    requires
        before.dom().finite(),
        fed_at(before, after, pos),
    ensures
        food_count(after) <= food_count(before) + 1,
        food_count(before) <= FOOD_LIMIT ==> food_count(after) <= FOOD_LIMIT,
{
    if food_count(before) < FOOD_LIMIT {
        let id = choose|id: EntityId|
            !before.dom().contains(id) && after == #[trigger] before.insert(id, food_at(pos));
        assert(holders::<Food>(before).subset_of(before.dom()));
        vstd::set_lib::lemma_len_subset(holders::<Food>(before), before.dom());
        assert(holders::<Food>(after) =~= holders::<Food>(before).insert(id));
    }
}

/// Adds a piece of food at `pos`, unless the store holds the limit already.
/// Returns whether food was added.
pub fn add_food_at(game_world: &mut GameWorld, pos: GridVec) -> (added: bool)
    requires
        has_room(old(game_world).entities(), 1),
    ensures
        added == (food_count(old(game_world).entities()) < FOOD_LIMIT),
        fed_at(old(game_world).entities(), final(game_world).entities(), pos),
        food_count(old(game_world).entities()) <= FOOD_LIMIT ==> food_count(
            final(game_world).entities(),
        ) <= FOOD_LIMIT,
        final(game_world).events@ == old(game_world).events@,
{
    let ghost m = game_world.entities();
    let food: Vec<EntityId> = select::<Food>(&mut game_world.world);
    proof {
        food@.unique_seq_to_set();
        assert(food@.to_set() =~= holders::<Food>(m));
    }
    if food.len() >= FOOD_LIMIT {
        return false;
    }
    let id: EntityId = spawn_morsel(
        &mut game_world.world,
        Position(pos),
        Collision::food(),
        Food,
        Material("Food".to_string()),
        Mesh("Food".to_string()),
    );
    proof {
        assert(game_world.entities() == m.insert(id, food_at(pos)));
        lemma_feeding_bound(m, game_world.entities(), pos);
    }
    true
}

/// Whether `after` is what the food system can make of `before`: one more
/// piece of food somewhere on the field while there are fewer than the
/// limit, nothing otherwise.
pub open spec fn fed(before: Entities, after: Entities) -> bool {
    exists|pos: GridVec| in_field(pos) && #[trigger] fed_at(before, after, pos)
}

/// Adds a piece of food at a random cell of the field, unless the store
/// holds the limit already.
pub fn add_food_system(game_world: &mut GameWorld)
    requires
        has_room(old(game_world).entities(), 1),
    ensures
        fed(old(game_world).entities(), final(game_world).entities()),
        food_count(old(game_world).entities()) <= FOOD_LIMIT ==> food_count(
            final(game_world).entities(),
        ) <= FOOD_LIMIT,
        final(game_world).events@ == old(game_world).events@,
{
    let ghost m = game_world.entities();
    let food: Vec<EntityId> = select::<Food>(&mut game_world.world);
    proof {
        food@.unique_seq_to_set();
        assert(food@.to_set() =~= holders::<Food>(m));
    }
    if food.len() >= FOOD_LIMIT {
        assert(fed_at(m, m, GridVec { x: 0, y: 0 }));
        return ;
    }
    let x: i32 = gen_range(-24, 24);
    let y: i32 = gen_range(-15, 15);
    let added: bool = add_food_at(game_world, GridVec::new(x, y));
    proof {
        assert(fed_at(m, game_world.entities(), GridVec { x, y }));
    }
}

} // verus!
