use snake_game::components::{
    Direction, GridVec, HeadDirection, Material, Mesh, Position, Text,
};
use snake_game::render::{DrawFont, DrawMesh2D, RenderCommand};
use snake_game::systems::{
    add_food_at, create_snake_system, debug_render_cmds, draw_text, gather_render_cmds, GameWorld,
};

fn meshes(commands: &Vec<RenderCommand>) -> Vec<(String, String, GridVec, GridVec)> {
    let mut found: Vec<(String, String, GridVec, GridVec)> = commands
        .iter()
        .map(|c| match c {
            RenderCommand::DrawMesh2D(DrawMesh2D { mesh, material, position, facing }) => {
                (mesh.clone(), material.clone(), *position, *facing)
            }
            RenderCommand::DrawFont(_) => panic!("a mesh was expected"),
        })
        .collect();
    found.sort_by_key(|m| (m.0.clone(), m.2.x, m.2.y));
    found
}

#[test]
fn every_entity_with_mesh_material_and_position_is_drawn() {
    let mut game_world = GameWorld::new();
    create_snake_system(&mut game_world);
    add_food_at(&mut game_world, GridVec { x: 3, y: 4 });
    game_world.world.spawn((Mesh("Lost".to_string()), Position(GridVec { x: 1, y: 1 })));
    game_world.world.spawn((Mesh("Lost".to_string()), Material("Lost".to_string())));
    let mut commands: Vec<RenderCommand> = Vec::new();
    gather_render_cmds(&mut game_world, &mut commands);
    let unturned = GridVec { x: 1, y: 0 };
    assert_eq!(
        meshes(&commands),
        vec![
            ("Food".to_string(), "Food".to_string(), GridVec { x: 3, y: 4 }, unturned),
            ("Snake".to_string(), "Snake".to_string(), GridVec { x: 0, y: 0 }, unturned),
            ("Tail".to_string(), "Tail".to_string(), GridVec { x: 0, y: -1 }, unturned),
        ]
    );
    assert_eq!(game_world.world.len(), 5);
}

#[test]
fn gathering_appends_to_the_commands() {
    let mut game_world = GameWorld::new();
    create_snake_system(&mut game_world);
    let mut commands: Vec<RenderCommand> = Vec::new();
    gather_render_cmds(&mut game_world, &mut commands);
    gather_render_cmds(&mut game_world, &mut commands);
    assert_eq!(commands.len(), 4);
}

#[test]
fn nothing_to_draw_in_an_empty_store() {
    let mut game_world = GameWorld::new();
    let mut commands: Vec<RenderCommand> = Vec::new();
    gather_render_cmds(&mut game_world, &mut commands);
    debug_render_cmds(&mut game_world, &mut commands);
    draw_text(&mut game_world, &mut commands);
    assert!(commands.is_empty());
}

#[test]
fn arrow_is_one_cell_ahead_and_points_along_the_direction() {
    for (direction, ahead, facing) in [
        (Direction::Up, GridVec { x: 5, y: 6 }, GridVec { x: 0, y: -1 }),
        (Direction::Down, GridVec { x: 5, y: 4 }, GridVec { x: 0, y: 1 }),
        (Direction::Left, GridVec { x: 4, y: 5 }, GridVec { x: -1, y: 0 }),
        (Direction::Right, GridVec { x: 6, y: 5 }, GridVec { x: 1, y: 0 }),
    ] {
        let mut game_world = GameWorld::new();
        game_world.world.spawn((HeadDirection(direction), Position(GridVec { x: 5, y: 5 })));
        let mut commands: Vec<RenderCommand> = Vec::new();
        debug_render_cmds(&mut game_world, &mut commands);
        assert_eq!(
            meshes(&commands),
            vec![("Arrow".to_string(), "Arrow".to_string(), ahead, facing)]
        );
    }
}

#[test]
fn arrow_of_the_initial_head() {
    let mut game_world = GameWorld::new();
    create_snake_system(&mut game_world);
    let mut commands: Vec<RenderCommand> = Vec::new();
    debug_render_cmds(&mut game_world, &mut commands);
    assert_eq!(
        meshes(&commands),
        vec![(
            "Arrow".to_string(),
            "Arrow".to_string(),
            GridVec { x: 0, y: 1 },
            GridVec { x: 0, y: -1 }
        )]
    );
}

#[test]
fn text_is_drawn_with_the_one_font() {
    let mut game_world = GameWorld::new();
    create_snake_system(&mut game_world);
    game_world.world.spawn((
        Text::new("Score:  3".to_string(), "Another".to_string()),
        Position(GridVec { x: -10, y: 10 }),
    ));
    game_world.world.spawn((Text::new("nowhere".to_string(), "Another".to_string()),));
    let mut commands: Vec<RenderCommand> = Vec::new();
    draw_text(&mut game_world, &mut commands);
    assert_eq!(commands.len(), 1);
    match &commands[0] {
        RenderCommand::DrawFont(DrawFont { text, font, position }) => {
            assert_eq!(text, "Score:  3");
            assert_eq!(font, "KenneyFuture");
            assert_eq!(*position, GridVec { x: -10, y: 10 });
        }
        RenderCommand::DrawMesh2D(_) => panic!("a text was expected"),
    }
}
