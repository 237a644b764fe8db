use snake_game::components::{
    Collision, CollisionKind, Direction, EntityId, Food, GridVec, HeadDirection, Material, Mesh,
    Position, Snake, Tail, Velocity,
};
use snake_game::events::Event;
use snake_game::systems::{
    add_food_at, add_food_system, create_snake_system, game_over_system, GameWorld,
};

fn food_cells(game_world: &GameWorld) -> Vec<GridVec> {
    game_world.world.query::<(&Food, &Position)>().iter().map(|(_, p)| p.0).collect()
}

#[test]
fn new_game_world_is_empty() {
    let game_world = GameWorld::new();
    assert_eq!(game_world.world.len(), 0);
    assert!(game_world.events.is_empty());
}

#[test]
fn head_is_spawned_with_its_bundle() {
    let mut game_world = GameWorld::new();
    create_snake_system(&mut game_world);
    let heads: Vec<(GridVec, GridVec, Direction, String, String)> = game_world
        .world
        .query::<(&Snake, &Position, &Velocity, &HeadDirection, &Material, &Mesh)>()
        .iter()
        .map(|(_, p, v, d, material, mesh)| (p.0, v.0, d.0, material.0.clone(), mesh.0.clone()))
        .collect();
    assert_eq!(
        heads,
        vec![(
            GridVec { x: 0, y: 0 },
            GridVec { x: 0, y: 1 },
            Direction::Up,
            "Snake".to_string(),
            "Snake".to_string()
        )]
    );
    assert_eq!(game_world.world.query::<(&Snake, &Collision)>().iter().count(), 0);
}

#[test]
fn first_segment_is_spawned_with_its_bundle() {
    let mut game_world = GameWorld::new();
    create_snake_system(&mut game_world);
    let found: Vec<(u32, GridVec, CollisionKind, String, String)> = game_world
        .world
        .query::<(&Tail, &Position, &Collision, &Material, &Mesh)>()
        .iter()
        .map(|(t, p, c, material, mesh)| (t.segment, p.0, c.kind, material.0.clone(), mesh.0.clone()))
        .collect();
    assert_eq!(
        found,
        vec![(
            1,
            GridVec { x: 0, y: -1 },
            CollisionKind::Snake,
            "Tail".to_string(),
            "Tail".to_string()
        )]
    );
}

#[test]
fn game_goes_on_without_game_over() {
    let mut game_world = GameWorld::new();
    create_snake_system(&mut game_world);
    add_food_at(&mut game_world, GridVec { x: 3, y: 3 });
    game_world.events =
        vec![Event::SnakeEatFood { entity: EntityId(1), pos: GridVec { x: 0, y: 0 } }];
    assert!(!game_over_system(&mut game_world));
    assert_eq!(game_world.world.len(), 3);
    assert_eq!(game_world.events.len(), 1);
}

#[test]
fn game_over_resets_to_head_and_first_segment() {
    let mut game_world = GameWorld::new();
    create_snake_system(&mut game_world);
    add_food_at(&mut game_world, GridVec { x: 3, y: 3 });
    game_world.world.spawn((Tail { segment: 2, ahead: EntityId(1) }, Position(GridVec { x: 9, y: 9 })));
    for (_, position) in game_world.world.query_mut::<(&Snake, &mut Position)>() {
        position.0 = GridVec { x: 12, y: -7 };
    }
    game_world.events = vec![
        Event::SnakeEatFood { entity: EntityId(1), pos: GridVec { x: 0, y: 0 } },
        Event::GameOver,
    ];
    assert!(game_over_system(&mut game_world));
    assert_eq!(game_world.world.len(), 2);
    let heads: Vec<(GridVec, GridVec)> = game_world
        .world
        .query::<(&Snake, &Position, &Velocity)>()
        .iter()
        .map(|(_, p, v)| (p.0, v.0))
        .collect();
    assert_eq!(heads, vec![(GridVec { x: 0, y: 0 }, GridVec { x: 0, y: 1 })]);
    let segments: Vec<(u32, GridVec)> = game_world
        .world
        .query::<(&Tail, &Position)>()
        .iter()
        .map(|(t, p)| (t.segment, p.0))
        .collect();
    assert_eq!(segments, vec![(1, GridVec { x: 0, y: -1 })]);
    assert!(food_cells(&game_world).is_empty());
    assert_eq!(game_world.events.len(), 2);
}

#[test]
fn food_is_added_where_asked() {
    let mut game_world = GameWorld::new();
    assert!(add_food_at(&mut game_world, GridVec { x: -4, y: 9 }));
    assert_eq!(food_cells(&game_world), vec![GridVec { x: -4, y: 9 }]);
    let found: Vec<(CollisionKind, String, String)> = game_world
        .world
        .query::<(&Food, &Collision, &Material, &Mesh)>()
        .iter()
        .map(|(_, c, material, mesh)| (c.kind, material.0.clone(), mesh.0.clone()))
        .collect();
    assert_eq!(found, vec![(CollisionKind::Food, "Food".to_string(), "Food".to_string())]);
}

#[test]
fn food_stops_at_ten() {
    let mut game_world = GameWorld::new();
    for n in 0..10 {
        assert!(add_food_at(&mut game_world, GridVec { x: n, y: 0 }));
    }
    assert_eq!(food_cells(&game_world).len(), 10);
    assert!(!add_food_at(&mut game_world, GridVec { x: 10, y: 0 }));
    assert_eq!(food_cells(&game_world).len(), 10);
    assert_eq!(game_world.world.len(), 10);
}

#[test]
fn food_system_fills_up_to_ten_and_stays_on_the_field() {
    let mut game_world = GameWorld::new();
    create_snake_system(&mut game_world);
    for round in 1..=25usize {
        add_food_system(&mut game_world);
        let cells = food_cells(&game_world);
        assert_eq!(cells.len(), round.min(10));
        for cell in cells {
            assert!(-24 <= cell.x && cell.x <= 24);
            assert!(-15 <= cell.y && cell.y <= 15);
        }
    }
    assert_eq!(game_world.world.len(), 12);
}

#[test]
fn food_system_spreads_its_food() {
    let mut game_world = GameWorld::new();
    for _ in 0..10 {
        add_food_system(&mut game_world);
    }
    let cells = food_cells(&game_world);
    assert!(cells.iter().any(|c| *c != cells[0]));
}
