use hecs::Entity;
use snake_game::components::{
    Direction, EntityId, GridVec, HeadDirection, Input, Position, Snake, Tail, Velocity,
};
use snake_game::events::Event;
use snake_game::systems::{
    create_snake_system, movement_system, tail_movement_system, update_input,
    update_velocity_direction, GameWorld,
};

fn started() -> GameWorld {
    let mut game_world = GameWorld::new();
    create_snake_system(&mut game_world);
    game_world
}

fn head_of(game_world: &GameWorld) -> (GridVec, GridVec, Direction) {
    let found: Vec<(GridVec, GridVec, Direction)> = game_world
        .world
        .query::<(&Snake, &Position, &Velocity, &HeadDirection)>()
        .iter()
        .map(|(_, p, v, d)| (p.0, v.0, d.0))
        .collect();
    assert_eq!(found.len(), 1);
    found[0]
}

fn segments_of(game_world: &GameWorld) -> Vec<(u32, GridVec)> {
    let mut found: Vec<(u32, GridVec)> = game_world
        .world
        .query::<(&Tail, &Position)>()
        .iter()
        .map(|(t, p)| (t.segment, p.0))
        .collect();
    found.sort_by_key(|s| s.0);
    found
}

fn press(direction: Direction) -> Input {
    Input {
        go_left: direction == Direction::Left,
        go_right: direction == Direction::Right,
        go_up: direction == Direction::Up,
        go_down: direction == Direction::Down,
    }
}

#[test]
fn initial_snake_has_head_and_first_segment() {
    let game_world = started();
    assert_eq!(game_world.world.len(), 2);
    assert_eq!(
        head_of(&game_world),
        (GridVec { x: 0, y: 0 }, GridVec { x: 0, y: 1 }, Direction::Up)
    );
    assert_eq!(segments_of(&game_world), vec![(1, GridVec { x: 0, y: -1 })]);
    assert!(game_world.events.is_empty());
}

#[test]
fn first_segment_follows_the_head() {
    let game_world = started();
    let heads: Vec<Entity> =
        game_world.world.query::<(Entity, &Snake)>().iter().map(|(e, _)| e).collect();
    let aheads: Vec<EntityId> = game_world.world.query::<&Tail>().iter().map(|t| t.ahead).collect();
    assert_eq!(heads.len(), 1);
    assert_eq!(aheads, vec![EntityId(heads[0].to_bits().get())]);
}

#[test]
fn tail_follow_is_one_step_behind() {
    let mut game_world = started();
    tail_movement_system(&mut game_world);
    movement_system(&mut game_world);
    assert_eq!(head_of(&game_world).0, GridVec { x: 0, y: 1 });
    assert_eq!(segments_of(&game_world), vec![(1, GridVec { x: 0, y: 0 })]);
}

#[test]
fn movement_adds_the_velocity_once() {
    let mut game_world = started();
    movement_system(&mut game_world);
    assert_eq!(head_of(&game_world).0, GridVec { x: 0, y: 1 });
    movement_system(&mut game_world);
    assert_eq!(head_of(&game_world).0, GridVec { x: 0, y: 2 });
    assert_eq!(segments_of(&game_world), vec![(1, GridVec { x: 0, y: -1 })]);
}

#[test]
fn movement_saturates_at_the_end_of_the_range() {
    let mut game_world = GameWorld::new();
    game_world.world.spawn((
        Snake,
        Position(GridVec { x: 5, y: i32::MAX }),
        Velocity(GridVec { x: 0, y: 1 }),
    ));
    movement_system(&mut game_world);
    let found: Vec<GridVec> = game_world.world.query::<&Position>().iter().map(|p| p.0).collect();
    assert_eq!(found, vec![GridVec { x: 5, y: i32::MAX }]);
}

#[test]
fn chain_of_segments_moves_without_collapsing() {
    let mut game_world = started();
    let first: Vec<Entity> =
        game_world.world.query::<(Entity, &Tail)>().iter().map(|(e, _)| e).collect();
    let second = game_world.world.spawn((
        Tail { segment: 2, ahead: EntityId(first[0].to_bits().get()) },
        Position(GridVec { x: 0, y: -2 }),
    ));
    game_world.world.spawn((
        Tail { segment: 3, ahead: EntityId(second.to_bits().get()) },
        Position(GridVec { x: 0, y: -3 }),
    ));
    tail_movement_system(&mut game_world);
    movement_system(&mut game_world);
    assert_eq!(head_of(&game_world).0, GridVec { x: 0, y: 1 });
    assert_eq!(
        segments_of(&game_world),
        vec![
            (1, GridVec { x: 0, y: 0 }),
            (2, GridVec { x: 0, y: -1 }),
            (3, GridVec { x: 0, y: -2 }),
        ]
    );
}

#[test]
fn tail_movement_leaves_other_entities_alone() {
    let mut game_world = started();
    tail_movement_system(&mut game_world);
    assert_eq!(
        head_of(&game_world),
        (GridVec { x: 0, y: 0 }, GridVec { x: 0, y: 1 }, Direction::Up)
    );
    assert_eq!(segments_of(&game_world), vec![(1, GridVec { x: 0, y: 0 })]);
}

#[test]
fn reversal_is_refused() {
    let mut game_world = started();
    update_input(&mut game_world, &press(Direction::Down));
    assert_eq!(head_of(&game_world).2, Direction::Up);
    update_velocity_direction(&mut game_world);
    assert_eq!(head_of(&game_world).1, GridVec { x: 0, y: 1 });
}

#[test]
fn turn_is_taken_and_velocity_follows() {
    let mut game_world = started();
    update_input(&mut game_world, &press(Direction::Left));
    assert_eq!(head_of(&game_world).2, Direction::Left);
    assert_eq!(head_of(&game_world).1, GridVec { x: 0, y: 1 });
    update_velocity_direction(&mut game_world);
    assert_eq!(head_of(&game_world).1, GridVec { x: -1, y: 0 });
    update_input(&mut game_world, &press(Direction::Right));
    assert_eq!(head_of(&game_world).2, Direction::Left);
}

#[test]
fn no_input_keeps_the_direction() {
    let mut game_world = started();
    update_input(&mut game_world, &Input::default());
    assert_eq!(head_of(&game_world).2, Direction::Up);
}

#[test]
fn same_direction_is_accepted() {
    let mut game_world = started();
    update_input(&mut game_world, &press(Direction::Up));
    assert_eq!(head_of(&game_world).2, Direction::Up);
}

#[test]
fn head_at_rest_takes_any_direction() {
    let mut game_world = GameWorld::new();
    game_world.world.spawn((
        Snake,
        Position(GridVec { x: 0, y: 0 }),
        Velocity(GridVec { x: 0, y: 0 }),
        HeadDirection(Direction::Up),
    ));
    update_input(&mut game_world, &press(Direction::Down));
    assert_eq!(head_of(&game_world).2, Direction::Down);
}

#[test]
fn direction_intake_needs_the_snake_marker() {
    let mut game_world = GameWorld::new();
    game_world.world.spawn((Velocity(GridVec { x: 0, y: 1 }), HeadDirection(Direction::Up)));
    update_input(&mut game_world, &press(Direction::Left));
    let dirs: Vec<Direction> =
        game_world.world.query::<&HeadDirection>().iter().map(|d| d.0).collect();
    assert_eq!(dirs, vec![Direction::Up]);
}

#[test]
fn systems_without_a_head_do_nothing() {
    let mut game_world = GameWorld::new();
    update_input(&mut game_world, &press(Direction::Left));
    update_velocity_direction(&mut game_world);
    tail_movement_system(&mut game_world);
    movement_system(&mut game_world);
    assert_eq!(game_world.world.len(), 0);
    assert_eq!(game_world.events, Vec::<Event>::new());
}

#[test]
fn only_the_head_moves() {
    let mut game_world = started();
    let other = game_world.world.spawn((
        Position(GridVec { x: 3, y: 3 }),
        Velocity(GridVec { x: 1, y: 0 }),
    ));
    movement_system(&mut game_world);
    assert_eq!(head_of(&game_world).0, GridVec { x: 0, y: 1 });
    assert_eq!(head_of(&game_world).1, GridVec { x: 0, y: 1 });
    assert_eq!(game_world.world.get::<&Position>(other).unwrap().0, GridVec { x: 3, y: 3 });
    assert_eq!(game_world.world.get::<&Velocity>(other).unwrap().0, GridVec { x: 1, y: 0 });
    assert_eq!(segments_of(&game_world), vec![(1, GridVec { x: 0, y: -1 })]);
}

#[test]
fn head_without_velocity_stays() {
    let mut game_world = GameWorld::new();
    game_world.world.spawn((Snake, Position(GridVec { x: 2, y: 2 })));
    movement_system(&mut game_world);
    let found: Vec<GridVec> = game_world.world.query::<&Position>().iter().map(|p| p.0).collect();
    assert_eq!(found, vec![GridVec { x: 2, y: 2 }]);
}
