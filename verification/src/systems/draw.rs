//! Gathering what a renderer is to draw from the state of the store.

use vstd::prelude::*;
use crate::components::{EntityId, GridVec, HeadDirection, Material, Mesh, Position, Text};
use crate::render::{DrawFont, Drawing, drawings, DrawMesh2D, RenderCommand};
use crate::store::{Components, Entities, get, holders2, holders3, lists_exactly, select2, select3};
use crate::systems::GameWorld;

verus! {

/// The way a mesh faces when it is not turned.
pub open spec fn unturned() -> GridVec {
    GridVec { x: 1, y: 0 }
}

/// How an entity with a mesh, a material and a position is drawn.
pub open spec fn mesh_picture() -> spec_fn(Components) -> Drawing {
    |c: Components|
        Drawing::Mesh {
            mesh: c.mesh.unwrap(),
            material: c.material.unwrap(),
            position: c.position.unwrap().0,
            facing: unturned(),
        }
}

/// The name of the material and of the mesh of the arrow that shows where
/// a head is going.
pub open spec fn arrow_asset() -> Seq<char> {
    "Arrow"@
}

/// The arrow of an entity with a direction and a position: one cell ahead
/// of the entity, pointing along its direction as the screen shows it, with
/// the vertical axis turned over.
pub open spec fn arrow_picture() -> spec_fn(Components) -> Drawing {
    |c: Components|
        Drawing::Mesh {
            mesh: arrow_asset(),
            material: arrow_asset(),
            position: c.head_direction.unwrap().0.unit().plus(c.position.unwrap().0),
            facing: GridVec {
                x: c.head_direction.unwrap().0.unit().x,
                y: (-c.head_direction.unwrap().0.unit().y) as i32,
            },
        }
}

/// The name of the font that every text is drawn with.
pub open spec fn text_font() -> Seq<char> {
    "KenneyFuture"@
}

/// How an entity with a text and a position is drawn.
pub open spec fn text_picture() -> spec_fn(Components) -> Drawing {
    |c: Components|
        Drawing::Font {
            text: c.text.unwrap().text,
            font: text_font(),
            position: c.position.unwrap().0,
        }
}

/// The pictures of the entities `ids`, in their order.
pub open spec fn pictures(
    m: Entities,
    ids: Seq<EntityId>,
    picture: spec_fn(Components) -> Drawing,
) -> Seq<Drawing> {
    ids.map_values(|id: EntityId| picture(m[id]))
}

/// Whether `after` is `before` followed by the picture of each entity of
/// `subjects`, once, in the order in which the store lists them.
pub open spec fn drawn(
    m: Entities,
    subjects: Set<EntityId>,
    picture: spec_fn(Components) -> Drawing,
    before: Seq<Drawing>,
    after: Seq<Drawing>,
) -> bool {
    exists|ids: Seq<EntityId>|
        lists_exactly(ids, subjects) && after == before + #[trigger] pictures(m, ids, picture)
}

/// Queues a command to draw every entity that has a mesh, a material and a
/// position.
pub fn gather_render_cmds(game_world: &mut GameWorld, commands: &mut Vec<RenderCommand>)
    ensures
        final(game_world).entities() == old(game_world).entities(),
        final(game_world).events@ == old(game_world).events@,
        drawn(
            old(game_world).entities(),
            holders3::<Mesh, Material, Position>(old(game_world).entities()),
            mesh_picture(),
            drawings(old(commands)@),
            drawings(final(commands)@),
        ),
{
    let ghost m = game_world.entities();
    let ghost before = drawings(commands@);
    let ids: Vec<EntityId> = select3::<Mesh, Material, Position>(&mut game_world.world);
    let n: usize = ids.len();
    let mut i: usize = 0;
    proof {
        assert(ids@.take(0) =~= Seq::<EntityId>::empty());
        assert(before + pictures(m, ids@.take(0), mesh_picture()) =~= before);
    }
    while i < n
        invariant
            i <= n,
            n == ids@.len(),
            game_world.entities() == m,
            game_world.events@ == old(game_world).events@,
            lists_exactly(ids@, holders3::<Mesh, Material, Position>(m)),
            drawings(commands@) == before + pictures(m, ids@.take(i as int), mesh_picture()),
        decreases n - i,
    {
        let id: EntityId = ids[i];
        proof {
            assert(ids@.contains(id));
            ids@.lemma_take_succ_push(i as int);
            ids@.take(i as int).lemma_push_map_commute(
                |id: EntityId| mesh_picture()(m[id]),
                id,
            );
        }
        let mesh: Mesh = get::<Mesh>(&mut game_world.world, id).unwrap();
        let material: Material = get::<Material>(&mut game_world.world, id).unwrap();
        let pos: Position = get::<Position>(&mut game_world.world, id).unwrap();
        let cmd = RenderCommand::DrawMesh2D(
            DrawMesh2D {
                facing: GridVec::new(1, 0),
                material: material.0,
                mesh: mesh.0,
                position: pos.0,
            },
        );
        let ghost sooner = drawings(commands@);
        commands.push(cmd);
        proof {
            assert(drawings(commands@) =~= sooner.push(cmd@));
        }
        i += 1;
    }
    proof {
        assert(ids@.take(n as int) =~= ids@);
    }
}

/// Queues, for every entity that has a direction and a position, a command
/// to draw an arrow that shows where the entity is going.
pub fn debug_render_cmds(game_world: &mut GameWorld, commands: &mut Vec<RenderCommand>)
    ensures
        final(game_world).entities() == old(game_world).entities(),
        final(game_world).events@ == old(game_world).events@,
        drawn(
            old(game_world).entities(),
            holders2::<HeadDirection, Position>(old(game_world).entities()),
            arrow_picture(),
            drawings(old(commands)@),
            drawings(final(commands)@),
        ),
{
    let ghost m = game_world.entities();
    let ghost before = drawings(commands@);
    let ids: Vec<EntityId> = select2::<HeadDirection, Position>(&mut game_world.world);
    let n: usize = ids.len();
    let mut i: usize = 0;
    proof {
        assert(ids@.take(0) =~= Seq::<EntityId>::empty());
        assert(before + pictures(m, ids@.take(0), arrow_picture()) =~= before);
    }
    while i < n
        invariant
            i <= n,
            n == ids@.len(),
            game_world.entities() == m,
            game_world.events@ == old(game_world).events@,
            lists_exactly(ids@, holders2::<HeadDirection, Position>(m)),
            drawings(commands@) == before + pictures(m, ids@.take(i as int), arrow_picture()),
        decreases n - i,
    {
        let id: EntityId = ids[i];
        proof {
            assert(ids@.contains(id));
            ids@.lemma_take_succ_push(i as int);
            ids@.take(i as int).lemma_push_map_commute(
                |id: EntityId| arrow_picture()(m[id]),
                id,
            );
        }
        let dir: HeadDirection = get::<HeadDirection>(&mut game_world.world, id).unwrap();
        let pos: Position = get::<Position>(&mut game_world.world, id).unwrap();
        let vel: GridVec = dir.0.velocity();
        let cmd = RenderCommand::DrawMesh2D(
            DrawMesh2D {
                material: "Arrow".to_string(),
                mesh: "Arrow".to_string(),
                position: vel.add(pos.0),
                facing: GridVec::new(vel.x, -vel.y),
            },
        );
        let ghost sooner = drawings(commands@);
        commands.push(cmd);
        proof {
            assert(drawings(commands@) =~= sooner.push(cmd@));
        }
        i += 1;
    }
    proof {
        assert(ids@.take(n as int) =~= ids@);
    }
}

/// Queues a command to draw every entity that has a text and a position.
pub fn draw_text(game_world: &mut GameWorld, commands: &mut Vec<RenderCommand>)
    ensures
        final(game_world).entities() == old(game_world).entities(),
        final(game_world).events@ == old(game_world).events@,
        drawn(
            old(game_world).entities(),
            holders2::<Text, Position>(old(game_world).entities()),
            text_picture(),
            drawings(old(commands)@),
            drawings(final(commands)@),
        ),
{
    let ghost m = game_world.entities();
    let ghost before = drawings(commands@);
    let ids: Vec<EntityId> = select2::<Text, Position>(&mut game_world.world);
    let n: usize = ids.len();
    let mut i: usize = 0;
    proof {
        assert(ids@.take(0) =~= Seq::<EntityId>::empty());
        assert(before + pictures(m, ids@.take(0), text_picture()) =~= before);
    }
    while i < n
        invariant
            i <= n,
            n == ids@.len(),
            game_world.entities() == m,
            game_world.events@ == old(game_world).events@,
            lists_exactly(ids@, holders2::<Text, Position>(m)),
            drawings(commands@) == before + pictures(m, ids@.take(i as int), text_picture()),
        decreases n - i,
    {
        let id: EntityId = ids[i];
        proof {
            assert(ids@.contains(id));
            ids@.lemma_take_succ_push(i as int);
            ids@.take(i as int).lemma_push_map_commute(
                |id: EntityId| text_picture()(m[id]),
                id,
            );
        }
        let text: Text = get::<Text>(&mut game_world.world, id).unwrap();
        let pos: Position = get::<Position>(&mut game_world.world, id).unwrap();
        let cmd = RenderCommand::DrawFont(
            DrawFont {
                text: text.text().clone(),
                font: "KenneyFuture".to_string(),
                position: pos.0,
            },
        );
        let ghost sooner = drawings(commands@);
        commands.push(cmd);
        proof {
            assert(drawings(commands@) =~= sooner.push(cmd@));
        }
        i += 1;
    }
    proof {
        assert(ids@.take(n as int) =~= ids@);
    }
}

} // verus!
