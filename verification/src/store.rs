//! The entity store: a `hecs::World`, seen by the verifier as a finite map
//! from entity handles to the components each entity carries.
//!
//! Every function of this file whose body the verifier does not read is a
//! thin call into `hecs`. The systems are proved against the contracts
//! stated here, so these contracts are what the proofs take on trust. Every
//! read of a component goes through a unique reference to the world, so
//! that none of them depends on the borrow flags that `hecs` keeps at run
//! time.

use vstd::prelude::*;
use crate::components::{
    Collision, EntityId, Food, HeadDirection, Material, Mesh, Position, Score, Snake, Tail, Text,
    TextView, Velocity,
};

verus! {

/// `hecs::World`, carried through verified code as an opaque value.
#[verifier::external_type_specification]
#[verifier::external_body]
pub struct ExWorld(hecs::World);

/// The components of one entity, as far as this library knows them. A
/// component that holds text is listed by its view.
pub struct Components {
    pub snake: Option<Snake>,
    pub food: Option<Food>,
    pub score: Option<Score>,
    pub position: Option<Position>,
    pub velocity: Option<Velocity>,
    pub head_direction: Option<HeadDirection>,
    pub tail: Option<Tail>,
    pub collision: Option<Collision>,
    pub material: Option<Seq<char>>,
    pub mesh: Option<Seq<char>>,
    pub text: Option<TextView>,
}

/// What a store holds: the live entities and the components of each.
pub type Entities = Map<EntityId, Components>;

impl Components {
    /// An entity without any component.
    pub open spec fn none() -> Components {
        Components {
            snake: None,
            food: None,
            score: None,
            position: None,
            velocity: None,
            head_direction: None,
            tail: None,
            collision: None,
            material: None,
            mesh: None,
            text: None,
        }
    }

    /// The bundle a head is spawned with.
    pub open spec fn head(
        position: Position,
        velocity: Velocity,
        direction: HeadDirection,
        material: Seq<char>,
        mesh: Seq<char>,
    ) -> Components {
        Components {
            snake: Some(Snake),
            position: Some(position),
            velocity: Some(velocity),
            head_direction: Some(direction),
            material: Some(material),
            mesh: Some(mesh),
            ..Components::none()
        }
    }

    /// The bundle a body segment is spawned with.
    pub open spec fn segment(
        tail: Tail,
        material: Seq<char>,
        mesh: Seq<char>,
        collision: Collision,
        position: Position,
    ) -> Components {
        Components {
            tail: Some(tail),
            material: Some(material),
            mesh: Some(mesh),
            collision: Some(collision),
            position: Some(position),
            ..Components::none()
        }
    }

    /// The bundle a piece of food is spawned with.
    pub open spec fn morsel(
        position: Position,
        collision: Collision,
        material: Seq<char>,
        mesh: Seq<char>,
    ) -> Components {
        Components {
            position: Some(position),
            collision: Some(collision),
            food: Some(Food),
            material: Some(material),
            mesh: Some(mesh),
            ..Components::none()
        }
    }
}

/// The live entities of a world and what each of them carries.
pub uninterp spec fn entities_of(world: hecs::World) -> Entities;

/// No world holds this many entities: `hecs` numbers them with a `u32`.
pub const ENTITY_LIMIT: u64 = 0xffff_ffff;

/// Whether `n` more entities can be spawned into a store that holds `m`.
pub open spec fn has_room(m: Entities, n: nat) -> bool {
    m.dom().finite() && m.dom().len() + n <= ENTITY_LIMIT
}

/// A component type of this library, tied to its place in `Components`.
pub trait Component: View + Sized {
    /// The component of this type among `c`, if there is one.
    spec fn of(c: Components) -> Option<Self::V>;

    /// `c` with its component of this type replaced by `v`.
    spec fn put(c: Components, v: Self::V) -> Components;
}

impl Component for Snake {
    open spec fn of(c: Components) -> Option<Snake> {
        c.snake
    }

    open spec fn put(c: Components, v: Snake) -> Components {
        Components { snake: Some(v), ..c }
    }
}

impl Component for Food {
    open spec fn of(c: Components) -> Option<Food> {
        c.food
    }

    open spec fn put(c: Components, v: Food) -> Components {
        Components { food: Some(v), ..c }
    }
}

impl Component for Score {
    open spec fn of(c: Components) -> Option<Score> {
        c.score
    }

    open spec fn put(c: Components, v: Score) -> Components {
        Components { score: Some(v), ..c }
    }
}

impl Component for Position {
    open spec fn of(c: Components) -> Option<Position> {
        c.position
    }

    open spec fn put(c: Components, v: Position) -> Components {
        Components { position: Some(v), ..c }
    }
}

impl Component for Velocity {
    open spec fn of(c: Components) -> Option<Velocity> {
        c.velocity
    }

    open spec fn put(c: Components, v: Velocity) -> Components {
        Components { velocity: Some(v), ..c }
    }
}

impl Component for HeadDirection {
    open spec fn of(c: Components) -> Option<HeadDirection> {
        c.head_direction
    }

    open spec fn put(c: Components, v: HeadDirection) -> Components {
        Components { head_direction: Some(v), ..c }
    }
}

impl Component for Tail {
    open spec fn of(c: Components) -> Option<Tail> {
        c.tail
    }

    open spec fn put(c: Components, v: Tail) -> Components {
        Components { tail: Some(v), ..c }
    }
}

impl Component for Collision {
    open spec fn of(c: Components) -> Option<Collision> {
        c.collision
    }

    open spec fn put(c: Components, v: Collision) -> Components {
        Components { collision: Some(v), ..c }
    }
}

impl Component for Material {
    open spec fn of(c: Components) -> Option<Seq<char>> {
        c.material
    }

    open spec fn put(c: Components, v: Seq<char>) -> Components {
        Components { material: Some(v), ..c }
    }
}

impl Component for Mesh {
    open spec fn of(c: Components) -> Option<Seq<char>> {
        c.mesh
    }

    open spec fn put(c: Components, v: Seq<char>) -> Components {
        Components { mesh: Some(v), ..c }
    }
}

impl Component for Text {
    open spec fn of(c: Components) -> Option<TextView> {
        c.text
    }

    open spec fn put(c: Components, v: TextView) -> Components {
        Components { text: Some(v), ..c }
    }
}

/// What `id` holds of the component type `A`: nothing where `id` is not alive.
pub open spec fn stored<A: Component>(m: Entities, id: EntityId) -> Option<A::V> {
    if m.dom().contains(id) {
        A::of(m[id])
    } else {
        None
    }
}

/// `ids` lists every element of `s` once, and nothing else.
pub open spec fn lists_exactly(ids: Seq<EntityId>, s: Set<EntityId>) -> bool {
    &&& ids.no_duplicates()
    &&& forall|id: EntityId| ids.contains(id) <==> s.contains(id)
}

/// The entities that carry a component of type `A`.
pub open spec fn holders<A: Component>(m: Entities) -> Set<EntityId> {
    Set::new(|id: EntityId| stored::<A>(m, id).is_some())
}

/// The entities that carry components of both types.
pub open spec fn holders2<A: Component, B: Component>(m: Entities) -> Set<EntityId> {
    Set::new(|id: EntityId| stored::<A>(m, id).is_some() && stored::<B>(m, id).is_some())
}

/// The entities that carry components of all three types.
pub open spec fn holders3<A: Component, B: Component, C: Component>(m: Entities) -> Set<
    EntityId,
> {
    Set::new(
        |id: EntityId|
            stored::<A>(m, id).is_some() && stored::<B>(m, id).is_some() && stored::<C>(
                m,
                id,
            ).is_some(),
    )
}

/// `m` in which each entity of `done` carries what `change` gives for it.
pub open spec fn overlay(
    m: Entities,
    done: Seq<EntityId>,
    change: spec_fn(EntityId) -> Components,
) -> Entities {
    Map::new(
        |id: EntityId| m.dom().contains(id),
        |id: EntityId|
            if done.contains(id) {
                change(id)
            } else {
                m[id]
            },
    )
}

/// With nothing done yet, the overlay is the store itself.
pub proof fn lemma_overlay_start(m: Entities, change: spec_fn(EntityId) -> Components)
    ensures
        overlay(m, Seq::empty(), change) == m,
{
    assert(overlay(m, Seq::empty(), change) =~= m);
}

/// Changing the next entity of a list without repetitions extends the
/// overlay by that entity, which until then is as it was in the store.
pub proof fn lemma_overlay_step(
    m: Entities,
    ids: Seq<EntityId>,
    i: int,
    change: spec_fn(EntityId) -> Components,
)
    requires
        ids.no_duplicates(),
        0 <= i < ids.len(),
        m.dom().contains(ids[i]),
    ensures
        overlay(m, ids.take(i), change).dom() == m.dom(),
        overlay(m, ids.take(i), change)[ids[i]] == m[ids[i]],
        overlay(m, ids.take(i), change).insert(ids[i], change(ids[i])) == overlay(
            m,
            ids.take(i + 1),
            change,
        ),
{
    let done = ids.take(i);
    let next = ids.take(i + 1);
    assert(overlay(m, done, change).dom() =~= m.dom());
    assert(!done.contains(ids[i])) by {
        if done.contains(ids[i]) {
            let j = choose|j: int| 0 <= j < done.len() && done[j] == ids[i];
            assert(ids[j] == ids[i]);
        }
    }
    assert forall|id: EntityId| next.contains(id) <==> done.contains(id) || id == ids[i] by {
        if next.contains(id) {
            let j = choose|j: int| 0 <= j < next.len() && next[j] == id;
            if j < i {
                assert(done[j] == id);
            }
        }
        if done.contains(id) {
            let j = choose|j: int| 0 <= j < done.len() && done[j] == id;
            assert(next[j] == id);
        }
        if id == ids[i] {
            assert(next[i] == id);
        }
    }
    assert(overlay(m, done, change).insert(ids[i], change(ids[i])) =~= overlay(m, next, change));
}

/// Once every entity that `change` touches is done, the overlay is the
/// store with `change` applied throughout.
pub proof fn lemma_overlay_end(
    m: Entities,
    ids: Seq<EntityId>,
    change: spec_fn(EntityId) -> Components,
)
    requires
        forall|id: EntityId| m.dom().contains(id) && !ids.contains(id) ==> change(id) == m[id],
    ensures
        overlay(m, ids, change) == Map::new(
            |id: EntityId| m.dom().contains(id),
            |id: EntityId| change(id),
        ),
{
    assert(overlay(m, ids, change) =~= Map::new(
        |id: EntityId| m.dom().contains(id),
        |id: EntityId| change(id),
    ));
}

/// `World::new`: a world without entities.
pub assume_specification[ hecs::World::new ]() -> (world: hecs::World)
    ensures
        entities_of(world) == Entities::empty(),
;

/// Whether a store holds exactly `n` entities.
pub open spec fn holds(m: Entities, n: nat) -> bool {
    m.dom().finite() && m.dom().len() == n
}

/// `World::len`: how many entities are alive, of which there are finitely
/// many.
pub assume_specification[ hecs::World::len ](world: &hecs::World) -> (n: u32)
    ensures
        holds(entities_of(*world), n as nat),
;

/// `World::clear`: despawns every entity.
pub assume_specification[ hecs::World::clear ](world: &mut hecs::World)
    ensures
        entities_of(*final(world)) == Entities::empty(),
;

/// `World::spawn` with the bundle of a head. The new entity carries exactly
/// the components given, under a handle that no live entity had.
#[verifier::external_body]
pub(crate) fn spawn_head(
    world: &mut hecs::World,
    snake: Snake,
    position: Position,
    velocity: Velocity,
    direction: HeadDirection,
    material: Material,
    mesh: Mesh,
) -> (id: EntityId)
    requires
        has_room(entities_of(*old(world)), 1),
    ensures
        !entities_of(*old(world)).dom().contains(id),
        entities_of(*final(world)) == entities_of(*old(world)).insert(
            id,
            Components::head(position, velocity, direction, material@, mesh@),
        ),
{
    EntityId(world.spawn((snake, position, velocity, direction, material, mesh)).to_bits().get())
}

/// `World::spawn` with the bundle of a body segment. The new entity carries
/// exactly the components given, under a handle that no live entity had.
#[verifier::external_body]
pub(crate) fn spawn_segment(
    world: &mut hecs::World,
    tail: Tail,
    material: Material,
    mesh: Mesh,
    collision: Collision,
    position: Position,
) -> (id: EntityId)
    requires
        has_room(entities_of(*old(world)), 1),
    ensures
        !entities_of(*old(world)).dom().contains(id),
        entities_of(*final(world)) == entities_of(*old(world)).insert(
            id,
            Components::segment(tail, material@, mesh@, collision, position),
        ),
{
    EntityId(world.spawn((tail, material, mesh, collision, position)).to_bits().get())
}

/// `World::spawn` with the bundle of a piece of food. The new entity carries
/// exactly the components given, under a handle that no live entity had.
#[verifier::external_body]
pub(crate) fn spawn_morsel(
    world: &mut hecs::World,
    position: Position,
    collision: Collision,
    food: Food,
    material: Material,
    mesh: Mesh,
) -> (id: EntityId)
    requires
        has_room(entities_of(*old(world)), 1),
    ensures
        !entities_of(*old(world)).dom().contains(id),
        entities_of(*final(world)) == entities_of(*old(world)).insert(
            id,
            Components::morsel(position, collision, material@, mesh@),
        ),
{
    EntityId(world.spawn((position, collision, food, material, mesh)).to_bits().get())
}

/// `World::despawn`: removes `id` with all its components. Returns whether
/// `id` was alive; where it was not, nothing changes.
#[verifier::external_body]
pub(crate) fn despawn(world: &mut hecs::World, id: EntityId) -> (was_alive: bool)
    ensures
        was_alive == entities_of(*old(world)).dom().contains(id),
        entities_of(*final(world)) == entities_of(*old(world)).remove(id),
{
    match hecs::Entity::from_bits(id.0) {
        Some(entity) => world.despawn(entity).is_ok(),
        None => false,
    }
}

/// `World::query_mut` for one component type: the handles of the entities
/// that carry it, each once, in the order in which the query yields them.
/// The store stays as it is.
#[verifier::external_body]
pub(crate) fn select<A: Component + Send + Sync + 'static>(world: &mut hecs::World) -> (ids: Vec<
    EntityId,
>)
    ensures
        entities_of(*final(world)) == entities_of(*old(world)),
        lists_exactly(ids@, holders::<A>(entities_of(*old(world)))),
{
    world.query_mut::<(hecs::Entity, &A)>().into_iter().map(
        |(e, _)| EntityId(e.to_bits().get()),
    ).collect()
}

/// `World::query_mut` for two component types: the handles of the entities
/// that carry both, each once, in the order in which the query yields them.
/// The store stays as it is.
#[verifier::external_body]
pub(crate) fn select2<A: Component + Send + Sync + 'static, B: Component + Send + Sync + 'static>(
    world: &mut hecs::World,
) -> (ids: Vec<EntityId>)
    ensures
        entities_of(*final(world)) == entities_of(*old(world)),
        lists_exactly(ids@, holders2::<A, B>(entities_of(*old(world)))),
{
    world.query_mut::<(hecs::Entity, &A, &B)>().into_iter().map(
        |(e, _, _)| EntityId(e.to_bits().get()),
    ).collect()
}

/// `World::query_mut` for three component types: the handles of the
/// entities that carry all three, each once, in the order in which the query
/// yields them. The store stays as it is.
#[verifier::external_body]
pub(crate) fn select3<
    A: Component + Send + Sync + 'static,
    B: Component + Send + Sync + 'static,
    C: Component + Send + Sync + 'static,
>(world: &mut hecs::World) -> (ids: Vec<EntityId>)
    ensures
        entities_of(*final(world)) == entities_of(*old(world)),
        lists_exactly(ids@, holders3::<A, B, C>(entities_of(*old(world)))),
{
    world.query_mut::<(hecs::Entity, &A, &B, &C)>().into_iter().map(
        |(e, _, _, _)| EntityId(e.to_bits().get()),
    ).collect()
}

/// `World::query_one_mut` with a shared reference: a copy of the component
/// of type `A` that `id` carries, or `None` where `id` is not alive or
/// carries none. The store stays as it is.
#[verifier::external_body]
pub(crate) fn get<A: Component + Clone + Send + Sync + 'static>(
    world: &mut hecs::World,
    id: EntityId,
) -> (found: Option<A>)
    ensures
        entities_of(*final(world)) == entities_of(*old(world)),
        match found {
            Some(a) => stored::<A>(entities_of(*old(world)), id) == Some(a@),
            None => stored::<A>(entities_of(*old(world)), id) is None,
        },
{
    let entity = hecs::Entity::from_bits(id.0)?;
    world.query_one_mut::<&A>(entity).ok().map(|a| a.clone())
}

/// `World::query_one_mut` with a unique reference: overwrites the component
/// of type `A` that `id` carries and leaves everything else as it was.
#[verifier::external_body]
pub(crate) fn overwrite<A: Component + Send + Sync + 'static>(
    world: &mut hecs::World,
    id: EntityId,
    value: A,
)
    requires
        stored::<A>(entities_of(*old(world)), id).is_some(),
    ensures
        entities_of(*final(world)) == entities_of(*old(world)).insert(
            id,
            A::put(entities_of(*old(world))[id], value@),
        ),
{
    if let Some(entity) = hecs::Entity::from_bits(id.0) {
        if let Ok(slot) = world.query_one_mut::<&mut A>(entity) {
            *slot = value;
        }
    }
}

} // verus!
