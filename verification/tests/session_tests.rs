use islands::CellState;
use islands::ChangeGameState;
use islands::GameState;
use islands::Grid;
use islands::Puzzle;
use islands::ToggleOutcome;

fn session(puzzle_text: &str, solution_text: &str) -> Puzzle {
    let game = Grid::from_puzzle_string(String::from(puzzle_text)).expect("puzzle should parse");
    let sol =
        Grid::from_solution_string(String::from(solution_text)).expect("solution should parse");
    Puzzle::new(game, sol).expect("sizes should match")
}

#[test]
fn new_rejects_size_mismatch() {
    let game = Grid::from_puzzle_string(String::from("#\n3,2")).expect("puzzle should parse");
    let sol = Grid::from_solution_string(String::from("1x\nxx")).expect("solution should parse");
    assert!(Puzzle::new(game, sol).is_none());
}

#[test]
fn toggle_cycles_a_blank_cell() {
    let mut p = session("#\n3,2", "1x.\nxx1");
    assert_eq!(p.toggle(0, 1), ToggleOutcome::StateUnchanged);
    assert_eq!(p.game_grid.get(0, 1), CellState::River);
    p.toggle(0, 1);
    assert_eq!(p.game_grid.get(0, 1), CellState::Island);
    p.toggle(0, 1);
    assert_eq!(p.game_grid.get(0, 1), CellState::Blank);
    p.toggle(0, 1);
    assert_eq!(p.game_grid.get(0, 1), CellState::River);
}

#[test]
fn toggle_is_a_noop_on_clue_cells() {
    let mut p = session("#\n3,2\n\n\n2,1,1", "1x.\nxx1");
    assert_eq!(p.toggle(0, 0), ToggleOutcome::NoChange);
    assert_eq!(p.game_grid.get(0, 0), CellState::Value(2));
}

#[test]
fn matching_partition_wins_exactly_once() {
    // solution water: (0,1), (1,0), (1,1); everything else is land
    let mut p = session("#\n3,2\n\n\n1,1,1", "1x.\nxx1");
    assert!(!p.is_won());
    assert_eq!(p.toggle(0, 1), ToggleOutcome::StateUnchanged);
    assert_eq!(p.toggle(1, 0), ToggleOutcome::StateUnchanged);
    assert_eq!(p.toggle(1, 1), ToggleOutcome::Won);
    assert!(p.is_won());
}

#[test]
fn reset_is_idempotent_and_keeps_clues() {
    let mut p = session("#\n3,2\n\n\n2,1,1", "1x.\nxx1");
    p.toggle(0, 1);
    p.toggle(1, 2);
    p.toggle(1, 2);
    p.reset();
    let after_once: Vec<CellState> =
        (0..2).flat_map(|r| (0..3).map(move |c| (r, c))).map(|(r, c)| p.game_grid.get(r, c)).collect();
    p.reset();
    let after_twice: Vec<CellState> =
        (0..2).flat_map(|r| (0..3).map(move |c| (r, c))).map(|(r, c)| p.game_grid.get(r, c)).collect();
    assert_eq!(after_once, after_twice);
    assert_eq!(p.game_grid.get(0, 0), CellState::Value(2));
    for r in 0..2 {
        for c in 0..3 {
            if (r, c) != (0, 0) {
                assert_eq!(p.game_grid.get(r, c), CellState::Blank);
            }
        }
    }
}

#[test]
fn update_game_state_applies_the_change() {
    let mut state = GameState::Playing;
    islands::update_game_state(&mut state, ChangeGameState(GameState::Won));
    assert_eq!(state, GameState::Won);
    islands::update_game_state(&mut state, ChangeGameState(GameState::Menu));
    assert_eq!(state, GameState::Menu);
}
