use aotenjo::game::state::{GamePhase, GameState, RoundOutcome, Wind};
use aotenjo::models::hand::MeldKind;
use aotenjo::models::tile::{Tile, TileSuit};

#[test]
fn test_game_state_new() {
    let state = GameState::new();
    assert_eq!(state.phase, GamePhase::MainMenu);
}

#[test]
fn test_start_run() {
    let mut state = GameState::new();
    state.start_run(42);
    assert_eq!(state.phase, GamePhase::Playing);
    assert_eq!(state.hand_tiles.len(), 14);
    assert_eq!(state.wall.remaining(), 122);
}

#[test]
fn test_target_score_progression() {
    let mut state = GameState::new();
    state.start_run(42);
    state.current_wind = Wind::East;
    state.current_round = 1;
    assert_eq!(state.get_target_score(), 300);

    state.current_round = 2;
    assert_eq!(state.get_target_score(), 800);

    state.current_wind = Wind::South;
    state.current_round = 1;
    assert_eq!(state.get_target_score(), 12000);
}

#[test]
fn end_round_advances_and_pays() {
    let mut state = GameState::new();
    state.start_run(1);
    state.round_score = 700;
    let outcome = state.end_round(2);
    assert_eq!(outcome, RoundOutcome::Pass { score: 700, target: 300, bonus: 100 });
    assert_eq!(state.current_round, 2);
    assert_eq!(state.currency, 100);

    state.current_round = 4;
    state.round_score = 0;
    state.round_target = 0;
    let outcome = state.end_round(1);
    assert_eq!(outcome, RoundOutcome::Pass { score: 0, target: 0, bonus: 50 });
    assert_eq!(state.current_wind, Wind::South);
    assert_eq!(state.current_round, 1);

    state.current_wind = Wind::North;
    state.current_round = 4;
    assert_eq!(state.end_round(10), RoundOutcome::Victory);
    assert_eq!(state.phase, GamePhase::Victory);
    assert_eq!(state.currency, 5150);

    state.round_target = 10;
    state.round_score = 9;
    assert_eq!(state.end_round(1), RoundOutcome::Fail { score: 9, target: 10 });
    assert_eq!(state.phase, GamePhase::GameOver);
}

#[test]
fn selection_and_round_over() {
    let mut state = GameState::new();
    state.start_run(5);
    let ids: Vec<u32> = state.hand_tiles.iter().take(3).map(|t| t.id).collect();
    state.selected_tile_ids = vec![ids[2], ids[0], 9999];
    let sel: Vec<u32> = state.get_selected_tiles().iter().map(|t| t.id).collect();
    assert_eq!(sel, vec![ids[0], ids[2]]);
    assert!(!state.is_round_over());
    state.current_play = 4;
    assert!(state.is_round_over());
    let drawn = state.draw_more_tiles(2);
    assert_eq!(drawn.len(), 2);
    assert_eq!(state.hand_tiles.len(), 16);
    assert_eq!(state.wall.remaining(), 120);
}

#[test]
fn evaluate_selection_checks_and_tallies() {
    let mut state = GameState::new();
    state.hand_tiles = vec![
        Tile::new(TileSuit::Manzu, 1, 10),
        Tile::new(TileSuit::Pinzu, 5, 11),
        Tile::new(TileSuit::Manzu, 1, 12),
        Tile::new(TileSuit::Wind, 2, 13),
        Tile::new(TileSuit::Manzu, 1, 14),
        Tile::new(TileSuit::Pinzu, 5, 15),
    ];
    state.selected_tile_ids = vec![10, 11, 12, 14, 15];
    let (play, tally) = state.evaluate_selection().unwrap();
    assert_eq!(play.melds.len(), 1);
    assert_eq!(play.melds[0].kind, MeldKind::Pon);
    assert_eq!(tally.tile_fu, 6 * 3 + 3 * 2);
    assert_eq!(tally.structure_half_fan, 4);
    assert_eq!(tally.artifact_fu, 0);

    state.selected_tile_ids = vec![10, 11, 12, 13, 15];
    assert_eq!(
        state.evaluate_selection().err(),
        Some("选中的牌无法组成合法的面子+对子组合".to_string())
    );
    state.selected_tile_ids = vec![10, 12, 99];
    assert_eq!(state.evaluate_selection().err(), Some("选牌数量无效: 2张 (需要5-14张)".to_string()));
}
