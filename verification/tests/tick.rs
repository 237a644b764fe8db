use hecs::Entity;
use snake_game::components::{
    Collision, CollisionKind, Direction, EntityId, Food, GridVec, HeadDirection, Input, Position,
    Score, Snake, Tail, Text, Velocity,
};
use snake_game::events::Event;
use snake_game::render::RenderAssetCommands;
use snake_game::systems::{add_food_at, create_snake_system, tick, GameWorld};

fn fresh_game() -> GameWorld {
    let mut game_world = GameWorld::new();
    create_snake_system(&mut game_world);
    game_world.world.spawn((
        Text::new("Score:  0".to_string(), "KenneyFuture".to_string()),
        Score,
        Position(GridVec { x: -20, y: 12 }),
    ));
    game_world
}

fn the_head(game_world: &GameWorld) -> (GridVec, GridVec, Direction) {
    let found: Vec<(GridVec, GridVec, Direction)> = game_world
        .world
        .query::<(&Snake, &Position, &Velocity, &HeadDirection)>()
        .iter()
        .map(|(_, p, v, d)| (p.0, v.0, d.0))
        .collect();
    assert_eq!(found.len(), 1);
    found[0]
}

fn the_tail(game_world: &GameWorld) -> Vec<(EntityId, Tail, GridVec)> {
    let mut found: Vec<(EntityId, Tail, GridVec)> = game_world
        .world
        .query::<(Entity, &Tail, &Position)>()
        .iter()
        .map(|(e, t, p)| (EntityId(e.to_bits().get()), *t, p.0))
        .collect();
    found.sort_by_key(|t| t.1.segment);
    found
}

fn food_count(game_world: &GameWorld) -> usize {
    game_world.world.query::<&Food>().iter().count()
}

fn board(game_world: &GameWorld) -> Vec<String> {
    game_world.world.query::<(&Text, &Score)>().iter().map(|(t, _)| t.text().clone()).collect()
}

fn idle() -> Input {
    Input::default()
}

#[test]
fn one_step_moves_head_and_tail() {
    let mut game_world = fresh_game();
    let mut score: i32 = 0;
    let mut cmds: Vec<RenderAssetCommands> = Vec::new();
    let over = tick(&mut game_world, &idle(), &mut score, &mut cmds, true, false);
    assert!(!over);
    assert_eq!(the_head(&game_world).0, GridVec { x: 0, y: 1 });
    let tail = the_tail(&game_world);
    assert_eq!(tail.len(), 1);
    assert_eq!(tail[0].1.segment, 1);
    assert_eq!(tail[0].2, GridVec { x: 0, y: 0 });
    assert_eq!(score, 0);
    assert!(game_world.events.is_empty());
    assert!(cmds.is_empty());
}

#[test]
fn frame_without_a_step_moves_nothing() {
    let mut game_world = fresh_game();
    let mut score: i32 = 0;
    let mut cmds: Vec<RenderAssetCommands> = Vec::new();
    tick(&mut game_world, &idle(), &mut score, &mut cmds, false, false);
    assert_eq!(the_head(&game_world).0, GridVec { x: 0, y: 0 });
    assert_eq!(the_tail(&game_world)[0].2, GridVec { x: 0, y: -1 });
}

#[test]
fn turn_takes_effect_in_the_same_tick() {
    let mut game_world = fresh_game();
    let mut score: i32 = 0;
    let mut cmds: Vec<RenderAssetCommands> = Vec::new();
    let left = Input { go_left: true, go_right: false, go_up: false, go_down: false };
    tick(&mut game_world, &left, &mut score, &mut cmds, true, false);
    assert_eq!(
        the_head(&game_world),
        (GridVec { x: -1, y: 0 }, GridVec { x: -1, y: 0 }, Direction::Left)
    );
    assert_eq!(the_tail(&game_world)[0].2, GridVec { x: 0, y: 0 });
}

#[test]
fn reversal_is_refused_within_a_tick() {
    let mut game_world = fresh_game();
    let mut score: i32 = 0;
    let mut cmds: Vec<RenderAssetCommands> = Vec::new();
    let down = Input { go_left: false, go_right: false, go_up: false, go_down: true };
    let over = tick(&mut game_world, &down, &mut score, &mut cmds, true, false);
    assert!(!over);
    assert_eq!(
        the_head(&game_world),
        (GridVec { x: 0, y: 1 }, GridVec { x: 0, y: 1 }, Direction::Up)
    );
}

#[test]
fn food_ahead_is_eaten_and_the_snake_grows() {
    let mut game_world = fresh_game();
    assert!(add_food_at(&mut game_world, GridVec { x: 0, y: 1 }));
    let food: Vec<EntityId> = game_world
        .world
        .query::<(Entity, &Food)>()
        .iter()
        .map(|(e, _)| EntityId(e.to_bits().get()))
        .collect();
    let first = the_tail(&game_world)[0].0;
    let mut score: i32 = 0;
    let mut cmds: Vec<RenderAssetCommands> = Vec::new();
    let over = tick(&mut game_world, &idle(), &mut score, &mut cmds, false, false);
    assert!(!over);
    assert_eq!(
        game_world.events,
        vec![
            Event::SnakeEatFood { entity: food[0], pos: GridVec { x: 0, y: 1 } },
            Event::SpawnSnakeTail { ahead: first, pos: GridVec { x: 0, y: -1 }, segment: 2 },
        ]
    );
    assert_eq!(food_count(&game_world), 0);
    assert!(!game_world.world.contains(Entity::from_bits(food[0].0).unwrap())
        || game_world
            .world
            .get::<&Food>(Entity::from_bits(food[0].0).unwrap())
            .is_err());
    assert_eq!(score, 1);
    assert_eq!(board(&game_world), vec!["Score:  1".to_string()]);
    assert_eq!(cmds.len(), 1);
    let tail = the_tail(&game_world);
    assert_eq!(tail.len(), 2);
    assert_eq!(tail[0].0, first);
    assert_eq!(tail[0].2, GridVec { x: 0, y: -1 });
    assert_eq!(tail[1].1, Tail { segment: 2, ahead: first });
    assert_eq!(tail[1].2, GridVec { x: 0, y: -1 });
    assert_eq!(game_world.world.len(), 4);
}

#[test]
fn food_two_cells_ahead_is_eaten_after_the_step() {
    let mut game_world = fresh_game();
    add_food_at(&mut game_world, GridVec { x: 0, y: 2 });
    let first = the_tail(&game_world)[0].0;
    let mut score: i32 = 0;
    let mut cmds: Vec<RenderAssetCommands> = Vec::new();
    tick(&mut game_world, &idle(), &mut score, &mut cmds, true, false);
    assert_eq!(score, 1);
    assert_eq!(food_count(&game_world), 0);
    assert_eq!(the_head(&game_world).0, GridVec { x: 0, y: 1 });
    let tail = the_tail(&game_world);
    assert_eq!(tail.len(), 2);
    assert_eq!(tail[0].2, GridVec { x: 0, y: 0 });
    assert_eq!(tail[1].1, Tail { segment: 2, ahead: first });
    assert_eq!(tail[1].2, GridVec { x: 0, y: 0 });
}

#[test]
fn grown_snake_keeps_its_chain_over_the_next_steps() {
    let mut game_world = fresh_game();
    add_food_at(&mut game_world, GridVec { x: 0, y: 1 });
    let mut score: i32 = 0;
    let mut cmds: Vec<RenderAssetCommands> = Vec::new();
    tick(&mut game_world, &idle(), &mut score, &mut cmds, false, false);
    tick(&mut game_world, &idle(), &mut score, &mut cmds, true, false);
    tick(&mut game_world, &idle(), &mut score, &mut cmds, true, false);
    assert_eq!(the_head(&game_world).0, GridVec { x: 0, y: 2 });
    let cells: Vec<GridVec> = the_tail(&game_world).iter().map(|t| t.2).collect();
    assert_eq!(cells, vec![GridVec { x: 0, y: 1 }, GridVec { x: 0, y: 0 }]);
    assert_eq!(score, 1);
    assert!(game_world.events.is_empty());
}

#[test]
fn events_of_the_last_tick_are_dropped() {
    let mut game_world = fresh_game();
    game_world.events = vec![
        Event::GameOver,
        Event::SnakeEatFood { entity: EntityId(12345), pos: GridVec { x: 0, y: 0 } },
    ];
    let mut score: i32 = 5;
    let mut cmds: Vec<RenderAssetCommands> = Vec::new();
    let over = tick(&mut game_world, &idle(), &mut score, &mut cmds, false, false);
    assert!(!over);
    assert!(game_world.events.is_empty());
    assert_eq!(score, 5);
    assert_eq!(game_world.world.len(), 3);
}

#[test]
fn running_into_the_snake_restarts_the_game() {
    let mut game_world = fresh_game();
    add_food_at(&mut game_world, GridVec { x: 7, y: 7 });
    game_world
        .world
        .spawn((Position(GridVec { x: 0, y: 2 }), Collision { kind: CollisionKind::Snake }));
    let mut score: i32 = 9;
    let mut cmds: Vec<RenderAssetCommands> = Vec::new();
    let over = tick(&mut game_world, &idle(), &mut score, &mut cmds, true, false);
    assert!(over);
    assert_eq!(game_world.world.len(), 2);
    assert_eq!(score, 0);
    assert_eq!(
        the_head(&game_world),
        (GridVec { x: 0, y: 0 }, GridVec { x: 0, y: 1 }, Direction::Up)
    );
    let tail = the_tail(&game_world);
    assert_eq!(tail.len(), 1);
    assert_eq!(tail[0].1.segment, 1);
    assert_eq!(tail[0].2, GridVec { x: 0, y: -1 });
    assert_eq!(game_world.events, vec![Event::GameOver]);
    assert_eq!(cmds.len(), 1);
    match &cmds[0] {
        RenderAssetCommands::UpdateText { new_text, text, .. } => {
            assert_eq!(new_text, "Score:  0");
            assert_eq!(text, "Score:  0");
        }
        RenderAssetCommands::LoadText { .. } => panic!("an update was expected"),
    }
}

#[test]
fn turning_back_into_the_tail_ends_the_game() {
    let mut game_world = fresh_game();
    let mut score: i32 = 0;
    let mut cmds: Vec<RenderAssetCommands> = Vec::new();
    let left = Input { go_left: true, go_right: false, go_up: false, go_down: false };
    let down = Input { go_left: false, go_right: false, go_up: false, go_down: true };
    assert!(!tick(&mut game_world, &idle(), &mut score, &mut cmds, true, false));
    assert!(!tick(&mut game_world, &left, &mut score, &mut cmds, false, false));
    assert!(tick(&mut game_world, &down, &mut score, &mut cmds, false, false));
    assert_eq!(game_world.world.len(), 2);
    assert_eq!(the_head(&game_world).0, GridVec { x: 0, y: 0 });
}

#[test]
fn food_appears_when_due_and_never_beyond_ten() {
    let mut game_world = fresh_game();
    let mut score: i32 = 0;
    let mut cmds: Vec<RenderAssetCommands> = Vec::new();
    tick(&mut game_world, &idle(), &mut score, &mut cmds, false, false);
    assert_eq!(food_count(&game_world), 0);
    for round in 1..=30usize {
        tick(&mut game_world, &idle(), &mut score, &mut cmds, false, true);
        assert!(food_count(&game_world) <= 10);
        assert!(food_count(&game_world) <= round);
        for (_, position) in game_world.world.query::<(&Food, &Position)>().iter() {
            assert!(-24 <= position.0.x && position.0.x <= 24);
            assert!(-15 <= position.0.y && position.0.y <= 15);
        }
    }
}

#[test]
fn long_game_keeps_the_food_within_the_limit() {
    let mut game_world = fresh_game();
    let mut score: i32 = 0;
    let mut cmds: Vec<RenderAssetCommands> = Vec::new();
    let inputs = [
        Input { go_left: true, go_right: false, go_up: false, go_down: false },
        Input { go_left: false, go_right: false, go_up: true, go_down: false },
        Input { go_left: false, go_right: true, go_up: false, go_down: false },
        Input { go_left: false, go_right: false, go_up: false, go_down: true },
        Input::default(),
    ];
    for round in 0..400usize {
        let before = the_head(&game_world);
        let over =
            tick(&mut game_world, &inputs[(round / 3) % 5], &mut score, &mut cmds, round % 2 == 0, round % 3 == 0);
        assert!(food_count(&game_world) <= 10);
        assert!(score >= 0);
        let after = the_head(&game_world);
        if !over {
            let reversed = after.2.velocity().x + before.1.x == 0
                && after.2.velocity().y + before.1.y == 0;
            assert!(!reversed);
            assert_eq!(the_tail(&game_world).len() as i32, 1 + score);
        } else {
            assert_eq!(score, 0);
            assert_eq!(the_tail(&game_world).len(), 1);
        }
    }
}

#[test]
fn fresh_game_is_ready() {
    let mut game_world = fresh_game();
    assert!(game_world.ready());
    assert!(GameWorld::new().ready());
    assert_eq!(game_world.world.len(), 3);
}

#[test]
fn segment_without_its_neighbour_is_not_ready() {
    let mut game_world = fresh_game();
    let gone = game_world.world.spawn((Position(GridVec { x: 5, y: 5 }),));
    game_world.world.spawn((
        Tail { segment: 2, ahead: EntityId(gone.to_bits().get()) },
        Position(GridVec { x: 5, y: 4 }),
    ));
    assert!(game_world.ready());
    game_world.world.despawn(gone).unwrap();
    assert!(!game_world.ready());
}

#[test]
fn segment_behind_an_entity_without_position_is_not_ready() {
    let mut game_world = fresh_game();
    let nowhere = game_world.world.spawn((Velocity(GridVec { x: 0, y: 0 }),));
    game_world.world.spawn((Tail { segment: 2, ahead: EntityId(nowhere.to_bits().get()) },));
    assert!(!game_world.ready());
}

#[test]
fn segment_behind_food_is_not_ready() {
    let mut game_world = fresh_game();
    let food = game_world
        .world
        .spawn((Position(GridVec { x: 5, y: 5 }), Collision { kind: CollisionKind::Food }));
    game_world.world.spawn((
        Tail { segment: 2, ahead: EntityId(food.to_bits().get()) },
        Position(GridVec { x: 5, y: 4 }),
    ));
    assert!(!game_world.ready());
}

#[test]
fn segment_that_is_food_is_not_ready() {
    let mut game_world = fresh_game();
    let first = the_tail(&game_world)[0].0;
    game_world.world.spawn((
        Tail { segment: 2, ahead: first },
        Position(GridVec { x: 0, y: -2 }),
        Collision { kind: CollisionKind::Food },
    ));
    assert!(!game_world.ready());
}

#[test]
fn systems_run_beside_a_leaked_borrow() {
    let mut game_world = fresh_game();
    let heads: Vec<Entity> =
        game_world.world.query::<(Entity, &Snake)>().iter().map(|(e, _)| e).collect();
    std::mem::forget(game_world.world.get::<&mut Position>(heads[0]).unwrap());
    let segment = the_tail_entity(&mut game_world);
    std::mem::forget(game_world.world.get::<&mut Tail>(segment).unwrap());
    assert!(game_world.ready());
    let mut score: i32 = 0;
    let mut cmds: Vec<RenderAssetCommands> = Vec::new();
    let over = tick(&mut game_world, &idle(), &mut score, &mut cmds, true, false);
    assert!(!over);
    let cells: Vec<GridVec> = game_world
        .world
        .query_mut::<(&Snake, &Position)>()
        .into_iter()
        .map(|(_, p)| p.0)
        .collect();
    assert_eq!(cells, vec![GridVec { x: 0, y: 1 }]);
    let segments: Vec<GridVec> = game_world
        .world
        .query_mut::<(&Tail, &Position)>()
        .into_iter()
        .map(|(_, p)| p.0)
        .collect();
    assert_eq!(segments, vec![GridVec { x: 0, y: 0 }]);
}

fn the_tail_entity(game_world: &mut GameWorld) -> Entity {
    let found: Vec<Entity> =
        game_world.world.query_mut::<(Entity, &Tail)>().into_iter().map(|(e, _)| e).collect();
    assert_eq!(found.len(), 1);
    found[0]
}
