use snake_game::components::{EntityId, GridVec, Position, Score, Text};
use snake_game::events::Event;
use snake_game::render::RenderAssetCommands;
use snake_game::systems::{create_snake_system, update_score_system, GameWorld};

fn with_board() -> GameWorld {
    let mut game_world = GameWorld::new();
    create_snake_system(&mut game_world);
    game_world.world.spawn((
        Text::new("Score:  0".to_string(), "KenneyFuture".to_string()),
        Score,
        Position(GridVec { x: -10, y: 10 }),
    ));
    game_world
}

fn board_texts(game_world: &GameWorld) -> Vec<String> {
    game_world.world.query::<(&Text, &Score)>().iter().map(|(t, _)| t.text().clone()).collect()
}

fn a_meal() -> Event {
    Event::SnakeEatFood { entity: EntityId(42), pos: GridVec { x: 0, y: 1 } }
}

fn updates(cmds: &Vec<RenderAssetCommands>) -> Vec<(String, String, String)> {
    cmds.iter()
        .map(|c| match c {
            RenderAssetCommands::UpdateText { new_text, text, font } => {
                (new_text.clone(), text.clone(), font.clone())
            }
            RenderAssetCommands::LoadText { .. } => panic!("an update was expected"),
        })
        .collect()
}

#[test]
fn meal_adds_one_and_rewrites_the_text() {
    let mut game_world = with_board();
    game_world.events = vec![a_meal()];
    let mut score: i32 = 0;
    let mut cmds: Vec<RenderAssetCommands> = Vec::new();
    update_score_system(&mut game_world, &mut score, &mut cmds);
    assert_eq!(score, 1);
    assert_eq!(board_texts(&game_world), vec!["Score:  1".to_string()]);
    assert_eq!(
        updates(&cmds),
        vec![("Score:  1".to_string(), "Score:  0".to_string(), "KenneyFuture".to_string())]
    );
    assert_eq!(game_world.events, vec![a_meal()]);
}

#[test]
fn every_meal_counts_and_is_announced() {
    let mut game_world = with_board();
    game_world.events = vec![
        a_meal(),
        Event::SpawnSnakeTail { ahead: EntityId(1), pos: GridVec { x: 0, y: 0 }, segment: 2 },
        a_meal(),
        a_meal(),
    ];
    let mut score: i32 = 8;
    let mut cmds: Vec<RenderAssetCommands> = Vec::new();
    update_score_system(&mut game_world, &mut score, &mut cmds);
    assert_eq!(score, 11);
    assert_eq!(board_texts(&game_world), vec!["Score:  11".to_string()]);
    assert_eq!(
        updates(&cmds),
        vec![
            ("Score:  9".to_string(), "Score:  0".to_string(), "KenneyFuture".to_string()),
            ("Score:  10".to_string(), "Score:  9".to_string(), "KenneyFuture".to_string()),
            ("Score:  11".to_string(), "Score:  10".to_string(), "KenneyFuture".to_string()),
        ]
    );
}

#[test]
fn game_over_sets_the_score_to_zero() {
    let mut game_world = with_board();
    game_world.events = vec![a_meal(), Event::GameOver];
    let mut score: i32 = 41;
    let mut cmds: Vec<RenderAssetCommands> = Vec::new();
    update_score_system(&mut game_world, &mut score, &mut cmds);
    assert_eq!(score, 0);
    assert_eq!(board_texts(&game_world), vec!["Score:  0".to_string()]);
    assert_eq!(
        updates(&cmds),
        vec![
            ("Score:  42".to_string(), "Score:  0".to_string(), "KenneyFuture".to_string()),
            ("Score:  0".to_string(), "Score:  42".to_string(), "KenneyFuture".to_string()),
        ]
    );
}

#[test]
fn meal_after_game_over_counts_from_zero() {
    let mut game_world = with_board();
    game_world.events = vec![Event::GameOver, a_meal()];
    let mut score: i32 = 7;
    let mut cmds: Vec<RenderAssetCommands> = Vec::new();
    update_score_system(&mut game_world, &mut score, &mut cmds);
    assert_eq!(score, 1);
    assert_eq!(board_texts(&game_world), vec!["Score:  1".to_string()]);
}

#[test]
fn other_events_leave_score_and_text_alone() {
    let mut game_world = with_board();
    game_world.events = vec![
        Event::SpawnSnakeTail { ahead: EntityId(1), pos: GridVec { x: 0, y: 0 }, segment: 2 },
    ];
    let mut score: i32 = 3;
    let mut cmds: Vec<RenderAssetCommands> = Vec::new();
    update_score_system(&mut game_world, &mut score, &mut cmds);
    assert_eq!(score, 3);
    assert_eq!(board_texts(&game_world), vec!["Score:  0".to_string()]);
    assert!(cmds.is_empty());
}

#[test]
fn score_without_a_board_is_still_counted() {
    let mut game_world = GameWorld::new();
    game_world.events = vec![a_meal(), a_meal()];
    let mut score: i32 = 0;
    let mut cmds: Vec<RenderAssetCommands> = Vec::new();
    update_score_system(&mut game_world, &mut score, &mut cmds);
    assert_eq!(score, 2);
    assert!(cmds.is_empty());
}

#[test]
fn text_without_the_score_marker_is_not_rewritten() {
    let mut game_world = with_board();
    game_world.world.spawn((Text::new("Hello".to_string(), "KenneyFuture".to_string()),));
    game_world.events = vec![a_meal()];
    let mut score: i32 = 0;
    let mut cmds: Vec<RenderAssetCommands> = Vec::new();
    update_score_system(&mut game_world, &mut score, &mut cmds);
    let mut all: Vec<String> =
        game_world.world.query::<&Text>().iter().map(|t| t.text().clone()).collect();
    all.sort();
    assert_eq!(all, vec!["Hello".to_string(), "Score:  1".to_string()]);
    assert_eq!(cmds.len(), 1);
}

#[test]
fn every_board_is_rewritten() {
    let mut game_world = with_board();
    game_world.world.spawn((Text::new("old".to_string(), "Other".to_string()), Score));
    game_world.events = vec![a_meal()];
    let mut score: i32 = 0;
    let mut cmds: Vec<RenderAssetCommands> = Vec::new();
    cmds.push(RenderAssetCommands::LoadText { text: "x".to_string(), font: "y".to_string() });
    update_score_system(&mut game_world, &mut score, &mut cmds);
    assert_eq!(board_texts(&game_world), vec!["Score:  1".to_string(), "Score:  1".to_string()]);
    assert_eq!(cmds.len(), 3);
    assert!(matches!(cmds[0], RenderAssetCommands::LoadText { .. }));
    let mut said = updates(&cmds[1..].to_vec());
    said.sort();
    assert_eq!(
        said,
        vec![
            ("Score:  1".to_string(), "Score:  0".to_string(), "KenneyFuture".to_string()),
            ("Score:  1".to_string(), "old".to_string(), "Other".to_string()),
        ]
    );
}

#[test]
fn score_stops_at_the_end_of_the_range() {
    let mut game_world = with_board();
    game_world.events = vec![a_meal(), a_meal()];
    let mut score: i32 = i32::MAX - 1;
    let mut cmds: Vec<RenderAssetCommands> = Vec::new();
    update_score_system(&mut game_world, &mut score, &mut cmds);
    assert_eq!(score, i32::MAX);
    assert_eq!(board_texts(&game_world), vec!["Score:  2147483647".to_string()]);
}

#[test]
fn negative_score_is_written_with_its_sign() {
    let mut game_world = with_board();
    game_world.events = vec![a_meal()];
    let mut score: i32 = i32::MIN;
    let mut cmds: Vec<RenderAssetCommands> = Vec::new();
    update_score_system(&mut game_world, &mut score, &mut cmds);
    assert_eq!(score, -2147483647);
    assert_eq!(board_texts(&game_world), vec!["Score:  -2147483647".to_string()]);
}
