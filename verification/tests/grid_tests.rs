use islands::CellState;
use islands::Grid;
use islands::GridComponent;
use islands::GridSize;

fn puzzle(text: &str) -> Grid {
    Grid::from_puzzle_string(String::from(text)).expect("puzzle text should parse")
}

fn solution(text: &str) -> Grid {
    Grid::from_solution_string(String::from(text)).expect("solution text should parse")
}

#[test]
fn puzzle_scenario_one_clue() {
    let g = puzzle("#\n3,2\n\n\n2,1,1");
    assert_eq!(g.grid_size, GridSize { rows: 2, cols: 3 });
    assert_eq!(g.get(0, 0), CellState::Value(2));
    assert_eq!(g.get(0, 1), CellState::Blank);
    assert_eq!(g.get(0, 2), CellState::Blank);
    assert_eq!(g.get(1, 0), CellState::Blank);
    assert_eq!(g.get(1, 1), CellState::Blank);
    assert_eq!(g.get(1, 2), CellState::Blank);
}

#[test]
fn puzzle_with_zero_clues_is_all_blank() {
    let g = puzzle("#\n3,2");
    assert_eq!(g.grid_size, GridSize { rows: 2, cols: 3 });
    for row in 0..2 {
        for col in 0..3 {
            assert_eq!(g.get(row, col), CellState::Blank);
        }
    }
}

#[test]
fn puzzle_later_clue_overwrites_earlier() {
    let g = puzzle("#\n2,2\n\n\n1,1,1\n3,1,1");
    assert_eq!(g.get(0, 0), CellState::Value(3));
}

#[test]
fn puzzle_rejects_missing_dimension_line() {
    assert!(Grid::from_puzzle_string(String::from("#")).is_none());
    assert!(Grid::from_puzzle_string(String::from("")).is_none());
}

#[test]
fn puzzle_rejects_bad_dimension_tokens() {
    assert!(Grid::from_puzzle_string(String::from("#\nx,2")).is_none());
    assert!(Grid::from_puzzle_string(String::from("#\n3")).is_none());
    assert!(Grid::from_puzzle_string(String::from("#\n3,")).is_none());
    assert!(Grid::from_puzzle_string(String::from("#\n,2")).is_none());
}

#[test]
fn puzzle_rejects_clue_outside_bounds() {
    assert!(Grid::from_puzzle_string(String::from("#\n3,2\n\n\n2,3,1")).is_none());
    assert!(Grid::from_puzzle_string(String::from("#\n3,2\n\n\n2,1,4")).is_none());
    assert!(Grid::from_puzzle_string(String::from("#\n3,2\n\n\n2,0,1")).is_none());
    assert!(Grid::from_puzzle_string(String::from("#\n3,2\n\n\n2,1,0")).is_none());
}

#[test]
fn puzzle_rejects_malformed_clue_lines() {
    assert!(Grid::from_puzzle_string(String::from("#\n3,2\n\n\n2,1")).is_none());
    assert!(Grid::from_puzzle_string(String::from("#\n3,2\n\n\nfoo,1,1")).is_none());
    assert!(Grid::from_puzzle_string(String::from("#\n3,2\n\n\n200,1,1")).is_none());
}

#[test]
fn solution_scenario_two_rows() {
    let g = solution("1x.\nxx1");
    assert_eq!(g.grid_size, GridSize { rows: 2, cols: 3 });
    assert_eq!(g.get(0, 0), CellState::Value(1));
    assert_eq!(g.get(0, 1), CellState::River);
    assert_eq!(g.get(0, 2), CellState::Island);
    assert_eq!(g.get(1, 0), CellState::River);
    assert_eq!(g.get(1, 1), CellState::River);
    assert_eq!(g.get(1, 2), CellState::Value(1));
}

#[test]
fn solution_dimensions_follow_the_text() {
    let g = solution("abcd\nwxyz\npqrs");
    assert_eq!(g.grid_size, GridSize { rows: 3, cols: 4 });
}

#[test]
fn puzzle_accepts_crlf_line_endings() {
    let g = puzzle("#\r\n3,2\r\n\r\n\r\n2,1,1\r\n");
    assert_eq!(g.grid_size, GridSize { rows: 2, cols: 3 });
    assert_eq!(g.get(0, 0), CellState::Value(2));
    assert_eq!(g.get(1, 2), CellState::Blank);
}

#[test]
fn solution_accepts_crlf_line_endings() {
    let g = solution("1x.\r\nxx1\r\n");
    assert_eq!(g.grid_size, GridSize { rows: 2, cols: 3 });
    assert_eq!(g.get(0, 1), CellState::River);
    assert_eq!(g.get(1, 2), CellState::Value(1));
}

#[test]
fn solution_keeps_a_lone_final_carriage_return() {
    // a '\r' not followed by '\n' is an ordinary (land) character
    let g = solution("ab\na\r");
    assert_eq!(g.grid_size, GridSize { rows: 2, cols: 2 });
    assert_eq!(g.get(1, 1), CellState::Island);
}

#[test]
fn solution_rejects_empty_text() {
    assert!(Grid::from_solution_string(String::from("")).is_none());
}

#[test]
fn solution_rejects_ragged_lines() {
    assert!(Grid::from_solution_string(String::from("ab\nabc")).is_none());
    assert!(Grid::from_solution_string(String::from("abc\nab")).is_none());
}

#[test]
fn get_clamps_out_of_range_coordinates() {
    let g = solution("1x.\nxx1");
    assert_eq!(g.get(5, 0), g.get(1, 0));
    assert_eq!(g.get(0, 9), g.get(0, 2));
    assert_eq!(g.get(7, 7), g.get(1, 2));
}

#[test]
fn set_overwrites_one_cell() {
    let mut g = puzzle("#\n3,2");
    g.set(&GridComponent::new(0, 1), CellState::Island);
    assert_eq!(g.get(0, 1), CellState::Island);
    assert_eq!(g.get(0, 0), CellState::Blank);
    assert_eq!(g.get(1, 1), CellState::Blank);
}

#[test]
fn check_false_on_size_mismatch() {
    let a = solution("1x.\nxx1");
    let b = solution("1x\nxx");
    assert!(!a.check(&b));
    assert!(!b.check(&a));
}

#[test]
fn check_collapses_land_labels() {
    let a = solution("1x.\nxx1");
    let b = solution(".x.\nxx.");
    assert!(a.check(&b));
    assert!(b.check(&a));
    let c = puzzle("#\n3,2\n\n\n5,1,1");
    // all-land working grid against a solution with water does not match
    assert!(!c.check(&a));
}

#[test]
fn check_compares_water_exactly() {
    let a = solution("x.\n.x");
    let b = solution("x.\n..");
    assert!(!a.check(&b));
    assert!(!b.check(&a));
}

#[test]
fn render_draws_one_line_per_row() {
    let g = puzzle("#\n3,2\n\n\n2,1,1");
    let chars = g.render().expect("single-digit clues should render");
    let text: String = chars.into_iter().collect();
    assert_eq!(text, "2  \n   \n");
}

#[test]
fn render_of_solution_grid() {
    let g = solution("1x.\nxx1");
    let chars = g.render().expect("single-digit clues should render");
    let text: String = chars.into_iter().collect();
    assert_eq!(text, "1X.\nXX1\n");
}

#[test]
fn render_rejects_multi_digit_clues() {
    let g = puzzle("#\n2,2\n\n\n12,1,1");
    assert_eq!(g.render(), None);
}

#[test]
fn grid_component_constructors() {
    let a = GridComponent::new(3, 7);
    assert_eq!(a.row, 3);
    assert_eq!(a.col, 7);
    let b = GridComponent::splat(4);
    assert_eq!(b.row, 4);
    assert_eq!(b.col, 4);
}

#[test]
fn grid_component_clamp() {
    let size = GridSize { rows: 2, cols: 3 };
    let inside = GridComponent::new(1, 2).clamp(&size);
    assert_eq!(inside, GridComponent::new(1, 2));
    let outside = GridComponent::new(9, 9).clamp(&size);
    assert_eq!(outside, GridComponent::new(1, 2));
}
